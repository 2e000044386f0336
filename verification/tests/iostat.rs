use vault_watch::collectors::iostat::{parse_iostat_output, IostatRow};

fn mb_per_sec(kb_text: &str) -> f64 {
    kb_text.parse::<f64>().unwrap_or(0.0) / 1024.0
}

fn read_mb_s(row: &IostatRow) -> f64 {
    mb_per_sec(&row.read_kb_per_sec)
}

fn write_mb_s(row: &IostatRow) -> f64 {
    mb_per_sec(&row.write_kb_per_sec)
}

fn devices() -> Vec<String> {
    vec!["sdc".to_string(), "sdd".to_string(), "sde".to_string()]
}

const SINGLE_BLOCK: &str = "\
Device             tps    kB_read/s    kB_wrtn/s    kB_dscd/s    kB_read    kB_wrtn    kB_dscd
sdc               0.00         0.00         0.00         0.00          0          0          0
sdd             178.00    182304.00         0.00         0.00    1090263          0          0
sde               0.00         0.00    182304.00         0.00          0    1090263          0
";

const TWO_BLOCKS: &str = "\
Device             tps    kB_read/s    kB_wrtn/s    kB_dscd/s    kB_read    kB_wrtn    kB_dscd
sdc               0.00         0.00         0.00         0.00          0          0          0

Device             tps    kB_read/s    kB_wrtn/s    kB_dscd/s    kB_read    kB_wrtn    kB_dscd
sdc             178.00    182304.00         0.00         0.00    1090263          0          0
";

#[test]
fn test_single_block() {
    let results = parse_iostat_output(SINGLE_BLOCK, &devices());
    assert_eq!(results.len(), 3);

    let sdd = results.iter().find(|r| r.device == "sdd").unwrap();
    assert!((read_mb_s(sdd) - 182304.0 / 1024.0).abs() < 0.01);
    assert!(write_mb_s(sdd).abs() < 0.01);

    let sde = results.iter().find(|r| r.device == "sde").unwrap();
    assert!(read_mb_s(sde).abs() < 0.01);
    assert!((write_mb_s(sde) - 182304.0 / 1024.0).abs() < 0.01);
}

#[test]
fn test_uses_last_block() {
    let single = vec!["sdc".to_string()];
    let results = parse_iostat_output(TWO_BLOCKS, &single);
    assert_eq!(results.len(), 1);
    // Last block has sdc read = 182304 kB/s
    assert!((read_mb_s(&results[0]) - 182304.0 / 1024.0).abs() < 0.01);
}

#[test]
fn test_empty_output() {
    assert!(parse_iostat_output("", &devices()).is_empty());
}

#[test]
fn rows_need_a_header_four_fields_and_a_monitored_device() {
    let output = "sdc 1 2 3\nDevice tps kB_read/s kB_wrtn/s\nsdc 1\nsdx 1 2 3\nsdc 1.0 2.5 3.5 4\n";
    let rows = parse_iostat_output(output, &["sdc".to_string()]);
    assert_eq!(rows.len(), 1);
    assert_eq!(rows[0].device, "sdc");
    assert_eq!(rows[0].read_kb_per_sec, "2.5");
    assert_eq!(rows[0].write_kb_per_sec, "3.5");
    assert!(parse_iostat_output("sdc 1 2 3\n", &["sdc".to_string()]).is_empty());
}
