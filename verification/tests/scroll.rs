use vault_watch::widgets::scroll::{max_offset, position_count};

#[test]
fn final_scroll_offset_is_the_final_scrollbar_position() {
    let total = 50;
    let visible = 38;
    assert_eq!(max_offset(total, visible), 12);
    assert_eq!(position_count(total, visible), 13);
    assert_eq!(
        max_offset(total, visible),
        position_count(total, visible) - 1
    );
}

#[test]
fn non_scrolling_content_has_one_stable_position() {
    assert_eq!(max_offset(4, 10), 0);
    assert_eq!(position_count(4, 10), 1);
}
