use vault_watch::collectors::md_sysfs::{
    parse_progress, MdArraySnapshot, MdArrayState, MdInventory, MdMemberSnapshot, MdMemberState,
    MdOperationSampler, MdProgress, MdSyncAction,
};
use vault_watch::collectors::raid::parse_mdstat;
use vault_watch::monitor::RaidState;

const SECOND: u128 = 1_000_000_000;

fn member(entry: &str, state: &str, slot: Option<u32>) -> MdMemberSnapshot {
    MdMemberSnapshot {
        kernel_entry: entry.to_string(),
        block_device: None,
        state: MdMemberState::parse(state),
        slot,
        errors: Some(0),
        recovery_start: None,
    }
}

fn array(name: &str, action: &str, degraded: u32, metadata: &str) -> MdArraySnapshot {
    MdArraySnapshot {
        name: name.to_string(),
        level: "raid1".to_string(),
        state: MdArrayState::parse("active"),
        raid_disks: 2,
        degraded,
        action: MdSyncAction::parse(action),
        progress: None,
        sync_speed_kib_per_sec: None,
        metadata_version: metadata.to_string(),
        external_metadata: metadata.starts_with("external:"),
        members: Vec::new(),
        consistent: true,
    }
}

fn progress(value: &str) -> Option<MdProgress> {
    parse_progress(value).unwrap()
}

fn inventory(arrays: Vec<MdArraySnapshot>) -> MdInventory {
    MdInventory {
        arrays,
        partial: false,
    }
}

#[test]
fn enumerates_nonstandard_name_and_preserves_member_flags() {
    let mut a = array("array-name", "idle", 0, "1.2");
    a.members = vec![
        member("dev-alpha", "in_sync,write_error", Some(0)),
        member("dev-spare", "spare", None),
    ];
    let active = &a.members[0];
    assert!(active.state.contains("in_sync"));
    assert!(active.state.contains("write_error"));
    assert_eq!(a.members[1].slot, None);
    assert_eq!(a.legacy_summary().state, RaidState::Degraded);
}

#[test]
fn parses_recovery_progress_speed_eta_and_external_metadata() {
    let mut a = array("md-any", "recover", 1, "external:imsm");
    a.progress = progress("1024 / 2048");
    a.sync_speed_kib_per_sec = Some(512);
    let status = a.legacy_summary();

    assert!(a.external_metadata);
    assert_eq!(a.action, MdSyncAction::Recover);
    assert_eq!(a.progress, Some(MdProgress { completed_sectors: 1024, total_sectors: 2048 }));
    assert_eq!(status.state, RaidState::Rebuilding);
    assert_eq!(status.eta_minutes, Some(1));
}

#[test]
fn unknown_states_and_invalid_progress_remain_explicit() {
    assert_eq!(MdArrayState::parse("future"), MdArrayState::Unknown("future".into()));
    assert_eq!(MdSyncAction::parse("future"), MdSyncAction::Unknown("future".into()));
    assert!(parse_progress("9 / 8").is_err());
    assert!(parse_progress("0 / 0").is_err());
    assert!(parse_progress("12").is_err());
    assert_eq!(parse_progress("none"), Ok(None));
    assert_eq!(parse_progress(""), Ok(None));
}

#[test]
fn operation_sampler_uses_delta_speed_and_resets_on_action_change() {
    let started: u128 = 10 * SECOND;
    let mut sampler = MdOperationSampler::default();
    let mut a = array("md-delta", "recover", 1, "1.2");
    a.progress = progress("1024 / 8192");
    a.sync_speed_kib_per_sec = Some(4096);

    let first_status = sampler.statuses(&inventory(vec![a.clone()]), started);
    assert_eq!(first_status[0].rebuild_speed_mb, Some(4));

    a.progress = progress("5120 / 8192");
    let second_status = sampler.statuses(&inventory(vec![a.clone()]), started + 2 * SECOND);
    assert_eq!(second_status[0].rebuild_speed_mb, Some(1));
    assert_eq!(second_status[0].eta_minutes, Some(1));

    a.action = MdSyncAction::parse("check");
    a.progress = progress("6144 / 8192");
    let changed_status = sampler.statuses(&inventory(vec![a]), started + 3 * SECOND);
    assert_eq!(changed_status[0].rebuild_speed_mb, Some(4));
}

#[test]
fn unchanged_progress_keeps_kernel_speed_and_eta_until_delta_advances() {
    let started: u128 = 10 * SECOND;
    let mut sampler = MdOperationSampler::default();
    let mut a = array("md-stalled-sample", "recover", 1, "1.2");
    a.progress = progress("1024 / 8192");
    a.sync_speed_kib_per_sec = Some(4096);

    assert_eq!(sampler.statuses(&inventory(vec![a.clone()]), started)[0].rebuild_speed_mb, Some(4));

    let unchanged = sampler.statuses(&inventory(vec![a.clone()]), started + 2 * SECOND);
    assert_eq!(unchanged[0].rebuild_speed_mb, Some(4));
    assert_eq!(unchanged[0].eta_minutes, Some(1));

    a.progress = progress("5120 / 8192");
    let advanced = sampler.statuses(&inventory(vec![a]), started + 4 * SECOND);
    assert_eq!(advanced[0].rebuild_speed_mb, Some(0));
    assert_eq!(advanced[0].eta_minutes, Some(1));
}

#[test]
fn event_driven_short_interval_uses_kernel_speed_instead_of_delta_spike() {
    let started: u128 = 10 * SECOND;
    let mut sampler = MdOperationSampler::default();
    let mut a = array("md-short-window", "recover", 1, "1.2");
    a.progress = progress("1024 / 16384");
    a.sync_speed_kib_per_sec = Some(4096);
    sampler.statuses(&inventory(vec![a.clone()]), started);

    a.progress = progress("8192 / 16384");
    let status = sampler.statuses(&inventory(vec![a]), started + 150_000_000);
    assert_eq!(status[0].rebuild_speed_mb, Some(4));
}

#[test]
fn sysfs_and_legacy_oracle_agree_on_shared_recovery_fields() {
    let mut a = array("md0", "recover", 0, "1.2");
    a.progress = progress("1024 / 2048");
    a.sync_speed_kib_per_sec = Some(1024);
    let native = MdOperationSampler::default()
        .statuses(&inventory(vec![a]), SECOND)
        .remove(0);
    let legacy = parse_mdstat(
        "md0 : active raid1 sda[0] sdb[1]\n\
         2048 blocks [2/2] [UU]\n\
         [==========>.........] recovery = 50.0% (1024/2048) finish=0.1min speed=1024K/sec\n\n",
    )
    .remove(0);

    assert_eq!(native.name, legacy.name);
    assert_eq!(native.state, legacy.state);
    assert_eq!(native.active_disks, legacy.active_disks);
    assert_eq!(native.total_disks, legacy.total_disks);
    assert_eq!(legacy.rebuild_pct.as_deref(), Some("50.0"));
    assert_eq!(native.rebuild_speed_mb, legacy.rebuild_speed_mb);
    assert_eq!(native.eta_minutes, legacy.eta_minutes);
}

#[test]
fn eta_is_rounded_up_and_absent_without_speed() {
    let p = MdProgress { completed_sectors: 0, total_sectors: 2048 };
    assert_eq!(p.eta_seconds(1), Some(1024));
    assert_eq!(p.eta_seconds(0), None);
    let q = MdProgress { completed_sectors: 1, total_sectors: 4 };
    assert_eq!(q.eta_seconds(1), Some(2));
}

#[test]
fn sampler_reports_each_array_in_order_with_its_own_state() {
    let mut sampler = MdOperationSampler::default();
    let mut rebuilding = array("md-rebuild", "recover", 1, "1.2");
    rebuilding.progress = progress("1024 / 8192");
    rebuilding.sync_speed_kib_per_sec = Some(4096);
    let idle = array("md-idle", "idle", 0, "1.2");
    let degraded = array("md-degraded", "idle", 1, "1.2");
    let arrays = vec![rebuilding.clone(), idle.clone(), degraded.clone()];
    sampler.statuses(&inventory(arrays.clone()), 10 * SECOND);
    rebuilding.progress = progress("5120 / 8192");
    let arrays = vec![rebuilding.clone(), idle.clone(), degraded.clone()];
    let statuses = sampler.statuses(&inventory(arrays.clone()), 12 * SECOND);
    assert_eq!(statuses.len(), 3);
    for (status, snapshot) in statuses.iter().zip(arrays.iter()) {
        let own = snapshot.legacy_summary();
        assert_eq!(status.name, own.name);
        assert_eq!(status.state, own.state);
        assert_eq!(status.active_disks, own.active_disks);
        assert_eq!(status.total_disks, own.total_disks);
    }
    assert_eq!(statuses[0].state, RaidState::Rebuilding);
    assert_eq!(statuses[0].rebuild_speed_mb, Some(1));
    assert_eq!(statuses[1].state, RaidState::Active);
    assert_eq!(statuses[2].state, RaidState::Degraded);
}
