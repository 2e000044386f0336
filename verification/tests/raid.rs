use vault_watch::collectors::raid::parse_mdstat;
use vault_watch::monitor::RaidState;

fn percent(text: &Option<String>) -> f64 {
    text.as_deref().unwrap().parse::<f64>().unwrap()
}

const MDSTAT_ACTIVE: &str = "Personalities : [raid10]
md0 : active raid10 sdc[0] sdd[1] sde[2]
      11718504448 blocks super 1.2 512K chunks 2 near-copies [3/3] [UUU]

unused devices: <none>
";

const MDSTAT_REBUILDING: &str = "Personalities : [raid10]
md0 : active raid10 sdc[0] sdd[1] sde[2]
      11718504448 blocks super 1.2 512K chunks 2 near-copies [3/3] [UUU]
      [==>..................]  resync =  9.3% (1090263040/11718504448) finish=60.5min speed=178031K/sec

unused devices: <none>
";

const MDSTAT_DEGRADED: &str = "Personalities : [raid10]
md0 : active raid10 sdc[0] sdd[1]
      11718504448 blocks super 1.2 512K chunks 2 near-copies [2/3] [UU_]

unused devices: <none>
";

const MDSTAT_NO_ARRAY: &str = "Personalities : [raid10]
unused devices: <none>
";

const MDSTAT_TWO_ARRAYS: &str = "Personalities : [raid10] [raid1]
md0 : active raid10 sdc[0] sdd[1] sde[2]
      11718504448 blocks super 1.2 512K chunks 2 near-copies [3/3] [UUU]
      [==>..................]  resync =  9.3% (1090263040/11718504448) finish=60.5min speed=178031K/sec

md1 : active raid1 sda[0] sdb[1]
      976630464 blocks super 1.2 [2/2] [UU]

unused devices: <none>
";

#[test]
fn test_active() {
    let arrays = parse_mdstat(MDSTAT_ACTIVE);
    assert_eq!(arrays.len(), 1);
    let r = &arrays[0];
    assert_eq!(r.name, "md0");
    assert_eq!(r.state, RaidState::Active);
    assert_eq!(r.active_disks, 3);
    assert_eq!(r.total_disks, 3);
    assert!(r.rebuild_pct.is_none());
    assert!(r.rebuild_speed_mb.is_none());
    assert!(r.eta_minutes.is_none());
}

#[test]
fn test_rebuilding() {
    let arrays = parse_mdstat(MDSTAT_REBUILDING);
    let r = &arrays[0];
    assert_eq!(r.name, "md0");
    assert_eq!(r.state, RaidState::Rebuilding);
    assert!((percent(&r.rebuild_pct) - 9.3).abs() < 0.01);
    // 178031 / 1024 = 173
    assert_eq!(r.rebuild_speed_mb.unwrap(), 173);
    // ceil(60.5) = 61
    assert_eq!(r.eta_minutes.unwrap(), 61);
}

#[test]
fn test_degraded() {
    let arrays = parse_mdstat(MDSTAT_DEGRADED);
    let r = &arrays[0];
    assert_eq!(r.state, RaidState::Degraded);
    assert_eq!(r.active_disks, 2);
    assert_eq!(r.total_disks, 3);
}

const MDSTAT_INACTIVE: &str = "Personalities : [raid10]
md0 : inactive sdc[0](S) sdd[1](S) sde[2](S)

unused devices: <none>
";

#[test]
fn test_no_array() {
    assert!(parse_mdstat(MDSTAT_NO_ARRAY).is_empty());
}

#[test]
fn test_inactive() {
    let arrays = parse_mdstat(MDSTAT_INACTIVE);
    let r = &arrays[0];
    assert_eq!(r.name, "md0");
    assert_eq!(r.state, RaidState::Unknown);
}

#[test]
fn test_two_arrays() {
    let arrays = parse_mdstat(MDSTAT_TWO_ARRAYS);
    assert_eq!(arrays.len(), 2);
    assert_eq!(arrays[0].name, "md0");
    assert_eq!(arrays[0].state, RaidState::Rebuilding);
    assert_eq!(arrays[0].rebuild_speed_mb.unwrap(), 173);
    assert_eq!(arrays[1].name, "md1");
    assert_eq!(arrays[1].state, RaidState::Active);
    assert_eq!(arrays[1].active_disks, 2);
    assert!(arrays[1].rebuild_pct.is_none());
}

#[test]
fn unparsable_rebuild_figures_stay_unknown_or_zero() {
    let content = "md2 : active raid1 sda[0] sdb[1]\n      [2/1] [U_]\n      [=>...]  recovery = 1.2.3% (1/2) finish=abc min speed=99999999999999999999999K/sec\n";
    let arrays = parse_mdstat(content);
    assert_eq!(arrays.len(), 1);
    let r = &arrays[0];
    assert_eq!(r.state, RaidState::Rebuilding);
    assert_eq!(r.rebuild_pct, None);
    assert_eq!(r.rebuild_speed_mb, Some(0));
    assert_eq!(r.eta_minutes, None);
    assert_eq!(r.active_disks, 2);
    assert_eq!(r.total_disks, 1);
}

#[test]
fn finish_time_rounds_up_and_degraded_needs_no_rebuild() {
    let content = "md3 : active raid5 sda[0] sdb[1]\n      [3/2] [UU_]\n      [>....]  resync = 0.5% finish=12.0min speed=2048K/sec\n\nmd4 : active raid1 sdc[0]\n      [1/2] [U_]\n";
    let arrays = parse_mdstat(content);
    assert_eq!(arrays.len(), 2);
    assert_eq!(arrays[0].eta_minutes, Some(12));
    assert_eq!(arrays[0].rebuild_speed_mb, Some(2));
    assert_eq!(arrays[0].rebuild_pct.as_deref(), Some("0.5"));
    assert_eq!(arrays[1].state, RaidState::Degraded);
}
