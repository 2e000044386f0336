use vault_watch::security::SecurityPosture;

#[test]
fn disclosure_never_implies_content_access() {
    let text = SecurityPosture::new(false).disclosure();
    assert!(text.contains("content access DENIED"));
    assert!(text.contains("network OFF"));
}

#[test]
fn disclosure_reports_outbound_notifications() {
    let text = SecurityPosture::new(true).disclosure();
    assert!(text.contains("content access DENIED"));
    assert!(text.contains("Discord ON"));
}
