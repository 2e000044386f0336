use vault_watch::ata::SmartStatus;
use vault_watch::collectors::broker_health::{broker_subjects, disk_from_status};
use vault_watch::monitor::{HealthStatus, MetricAvailability};
use vault_watch::storage::{Generation, Materialization, StorageInventory, StorageKind, StorageNode};

fn node(name: &str, kind: StorageKind, generation: Generation) -> StorageNode {
    StorageNode {
        id: format!("block:{name}"),
        name: name.to_owned(),
        kind,
        materialization: Materialization::BlockDevice,
        removable: Some(false),
        identities: Vec::new(),
        generation,
    }
}

#[test]
fn subjects_require_complete_whole_scsi_like_generations() {
    let complete = Generation {
        diskseq: Some(42),
        dev_t: Some((8, 0)),
    };
    let inventory = StorageInventory {
        nodes: vec![
            node("sda", StorageKind::ScsiLike, complete),
            node("nvme0n1", StorageKind::Nvme, Generation::default()),
            node("sdb", StorageKind::ScsiLike, Generation::default()),
        ],
        edges: Vec::new(),
        partial: false,
    };

    let subjects = broker_subjects(&inventory);

    assert_eq!(subjects.len(), 1);
    assert_eq!(subjects[0].device, "sda");
    assert_eq!(subjects[0].device_ref.generation.diskseq, 42);
}

#[test]
fn smart_status_maps_without_interpreting_vendor_attributes() {
    let passed = disk_from_status("sda".into(), SmartStatus::Passed);
    assert_eq!(passed.health, HealthStatus::Healthy);
    assert_eq!(passed.health_availability, MetricAvailability::Available);
    assert_eq!(passed.temperature_c, None);
    assert_eq!(passed.power_on_hours, None);

    let failed = disk_from_status("sdb".into(), SmartStatus::PredictingFailure);
    assert_eq!(failed.health, HealthStatus::Failed);

    let unknown = disk_from_status("sdc".into(), SmartStatus::Unknown);
    assert_eq!(unknown.health, HealthStatus::Unavailable);
    assert_eq!(unknown.health_availability, MetricAvailability::Malformed);
}
