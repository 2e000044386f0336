use vault_watch::widgets::sparkline_cell::sparkline;

#[test]
fn test_empty() {
    assert_eq!(sparkline(&[], 5), "     ");
}

#[test]
fn test_all_zero() {
    let data = vec![0u64; 4];
    let s = sparkline(&data, 4);
    assert_eq!(s.chars().count(), 4);
    // All zero → all '▁' (index 0)
    assert!(s.chars().all(|c| c == '▁'));
}

#[test]
fn test_padding() {
    let data = vec![10u64, 20];
    let s = sparkline(&data, 5);
    assert_eq!(s.chars().count(), 5);
    // First 3 chars are spaces
    let chars: Vec<char> = s.chars().collect();
    assert_eq!(chars[0], ' ');
    assert_eq!(chars[1], ' ');
    assert_eq!(chars[2], ' ');
}

#[test]
fn test_max_block() {
    let data = vec![0u64, 100];
    let s = sparkline(&data, 2);
    let chars: Vec<char> = s.chars().collect();
    assert_eq!(chars[0], '▁');
    assert_eq!(chars[1], '█');
}
