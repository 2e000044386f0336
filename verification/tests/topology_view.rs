use vault_watch::monitor::{DiskInfo, HealthStatus, MetricAvailability, RaidAvailability};
use vault_watch::storage::{
    Confidence, Generation, IdentityClaim, IdentityScope, IdentitySource, Materialization,
    StorageKind, StorageNode,
};
use vault_watch::widgets::topology_view::{health_observation, topology_values};

#[test]
fn topology_row_does_not_render_identity_claim_values() {
    let node = StorageNode {
        id: "block:test0".into(),
        name: "test0".into(),
        kind: StorageKind::Nvme,
        materialization: Materialization::BlockDevice,
        removable: Some(false),
        identities: vec![IdentityClaim {
            value: "sensitive-identity".into(),
            scope: IdentityScope::BlockDevice,
            source: IdentitySource::DevNumber,
            confidence: Confidence::Medium,
        }],
        generation: Generation {
            diskseq: Some(42),
            dev_t: Some((259, 0)),
        },
    };

    let row = topology_values(&node, "part:0 back:0 md:0".into()).join(" ");
    assert!(!row.contains("sensitive-identity"));
    assert!(!row.contains("259:0"));
    assert!(!row.contains("42"));
    assert!(row.contains("seq:yes dev:yes"));
}

#[test]
fn node_details_keep_array_and_partition_availability_scoped() {
    let partition = StorageNode {
        id: "block:test0p1".into(),
        name: "test0p1".into(),
        kind: StorageKind::Nvme,
        materialization: Materialization::Partition,
        removable: None,
        identities: Vec::new(),
        generation: Generation::default(),
    };
    let md = StorageNode {
        id: "block:array-test".into(),
        name: "array-test".into(),
        kind: StorageKind::MdRaid,
        materialization: Materialization::Stacked,
        removable: Some(false),
        identities: Vec::new(),
        generation: Generation::default(),
    };
    let disks: Vec<DiskInfo> = Vec::new();

    assert_eq!(
        health_observation(false, RaidAvailability::Complete, &disks, &partition),
        (MetricAvailability::Unsupported, "topology-only", "partition")
    );
    assert_eq!(
        health_observation(false, RaidAvailability::Partial, &disks, &md),
        (MetricAvailability::TemporarilyUnavailable, "md-sysfs", "array")
    );
    assert_eq!(
        health_observation(true, RaidAvailability::Partial, &disks, &md),
        (MetricAvailability::Stale, "sysfs-topology", "last-known-node")
    );
}

#[test]
fn whole_device_health_comes_from_its_disk_record() {
    let node = StorageNode {
        id: "block:sda".into(),
        name: "sda".into(),
        kind: StorageKind::ScsiLike,
        materialization: Materialization::BlockDevice,
        removable: Some(false),
        identities: Vec::new(),
        generation: Generation::default(),
    };
    let mut disk = DiskInfo::unavailable("sda".to_string());
    disk.health = HealthStatus::Healthy;
    disk.health_availability = MetricAvailability::Available;
    assert_eq!(
        health_observation(false, RaidAvailability::Complete, &[disk], &node),
        (MetricAvailability::Available, "legacy-smart", "whole-device")
    );
}
