use vault_watch::history::{
    array_speed_samples, push_bounded, raid_graph_visible, SeriesHistory,
};
use vault_watch::monitor::{RaidState, RaidSummary, HISTORY_SIZE};

fn values<'a>(history: &'a SeriesHistory, name: &str) -> Option<&'a Vec<u64>> {
    history.series.iter().find(|s| s.name == name).map(|s| &s.values)
}

fn raid(name: &str, state: RaidState, speed: Option<u64>) -> RaidSummary {
    RaidSummary {
        name: name.to_string(),
        state,
        rebuild_speed_mb: speed,
        eta_minutes: None,
        active_disks: 2,
        total_disks: 2,
    }
}

#[test]
fn bounded_push_keeps_the_newest_window() {
    let mut v: Vec<u64> = Vec::new();
    for i in 0..(HISTORY_SIZE as u64 + 5) {
        push_bounded(&mut v, i);
        assert!(v.len() <= HISTORY_SIZE);
        assert_eq!(*v.last().unwrap(), i);
    }
    assert_eq!(v.len(), HISTORY_SIZE);
    assert_eq!(v[0], 5);
}

#[test]
fn histories_start_empty_once_per_name_and_record_only_known_names() {
    let mut history =
        SeriesHistory::for_names(&["sda".to_string(), "sdb".to_string(), "sda".to_string()]);
    assert_eq!(history.series.len(), 2);
    history.record("sda", 41);
    history.record("sdz", 7);
    assert_eq!(values(&history, "sda"), Some(&vec![41]));
    assert_eq!(values(&history, "sdb"), Some(&vec![]));
    assert_eq!(values(&history, "sdz"), None);
}

#[test]
fn reconcile_keeps_active_drops_replaced_and_adds_new() {
    let mut history = SeriesHistory::for_names(&["sda".to_string(), "sdb".to_string(), "sdc".to_string()]);
    history.record("sda", 1);
    history.record("sdb", 2);
    history.record("sdc", 3);
    history.reconcile(
        &["sda".to_string(), "sdb".to_string(), "sdd".to_string()],
        &["sdb".to_string()],
    );
    assert_eq!(values(&history, "sda"), Some(&vec![1]));
    assert_eq!(values(&history, "sdb"), Some(&vec![]));
    assert_eq!(values(&history, "sdc"), None);
    assert_eq!(values(&history, "sdd"), Some(&vec![]));
    assert_eq!(history.series.len(), 3);
}

#[test]
fn stopped_arrays_drain_with_zeros_before_they_leave() {
    let mut history = SeriesHistory::for_names(&[]);
    history.update_array_speeds(&array_speed_samples(&[raid("md0", RaidState::Rebuilding, Some(17))]));
    assert_eq!(values(&history, "md0"), Some(&vec![170]));
    assert!(raid_graph_visible(&[], &history));

    history.update_array_speeds(&[]);
    assert_eq!(values(&history, "md0"), Some(&vec![170, 0]));
    for _ in 0..HISTORY_SIZE - 2 {
        history.update_array_speeds(&[]);
    }
    assert_eq!(values(&history, "md0").map(|v| v.len()), Some(HISTORY_SIZE));
    history.update_array_speeds(&[]);
    assert_eq!(values(&history, "md0"), None);
    assert!(!raid_graph_visible(&[], &history));
    assert!(raid_graph_visible(&[raid("md1", RaidState::Rebuilding, None)], &history));
}

#[test]
fn reported_arrays_stay_with_zero_speed() {
    let mut history = SeriesHistory::for_names(&[]);
    let samples = array_speed_samples(&[raid("md1", RaidState::Active, None)]);
    assert_eq!(samples, vec![("md1".to_string(), 0)]);
    history.update_array_speeds(&samples);
    history.update_array_speeds(&samples);
    assert_eq!(values(&history, "md1"), Some(&vec![0, 0]));
    assert!(!history.any_positive());
    let huge = array_speed_samples(&[raid("md2", RaidState::Rebuilding, Some(u64::MAX))]);
    assert_eq!(huge[0].1, u64::MAX);
}
