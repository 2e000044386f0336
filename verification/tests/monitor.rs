use vault_watch::history::SeriesHistory;
use vault_watch::monitor::{collect_alerts, merge_inventory_disks, DiskInfo, HealthStatus};
use vault_watch::storage::{Generation, Materialization, StorageInventory, StorageKind, StorageNode};

fn disk(health: HealthStatus) -> DiskInfo {
    let mut disk = DiskInfo::unavailable("sda".into());
    disk.health = health;
    disk
}

fn nvme(generation: Generation) -> StorageInventory {
    StorageInventory {
        nodes: vec![StorageNode {
            id: "block:nvme0n1".into(),
            name: "nvme0n1".into(),
            kind: StorageKind::Nvme,
            materialization: Materialization::BlockDevice,
            removable: Some(false),
            identities: Vec::new(),
            generation,
        }],
        edges: Vec::new(),
        partial: false,
    }
}

#[test]
fn unavailable_health_does_not_create_disk_failure_alert() {
    assert!(collect_alerts(&[], &[disk(HealthStatus::Unavailable)]).is_empty());
}

#[test]
fn explicit_health_failure_creates_critical_alert() {
    let alerts = collect_alerts(&[], &[disk(HealthStatus::Failed)]);
    assert_eq!(alerts.len(), 1);
    assert!(alerts[0].is_critical());
}

#[test]
fn merge_preserves_uncollected_inventory_devices_as_unavailable() {
    let inventory = nvme(Generation::default());

    let merged = merge_inventory_disks(&inventory, vec![disk(HealthStatus::Healthy)]);

    assert_eq!(merged.len(), 2);
    assert_eq!(merged[1].device, "sda");
    assert_eq!(merged[0].device, "nvme0n1");
    assert_eq!(merged[0].health, HealthStatus::Unavailable);
}

fn reconcile(inventory: &mut StorageInventory, history: &mut SeriesHistory, next: StorageInventory) {
    let replaced = inventory.replaced_device_names(&next);
    inventory.reconcile(next);
    let devices = inventory.whole_device_names();
    history.reconcile(&devices, &replaced);
}

fn series<'a>(history: &'a SeriesHistory, name: &str) -> Option<&'a Vec<u64>> {
    history.series.iter().find(|s| s.name == name).map(|s| &s.values)
}

#[test]
fn reconciliation_prepares_histories_for_hot_added_whole_device() {
    let mut inventory = StorageInventory::default();
    let mut history = SeriesHistory::for_names(&[]);
    reconcile(&mut inventory, &mut history, nvme(Generation::default()));
    assert!(series(&history, "nvme0n1").is_some());

    history.record("nvme0n1", 42);
    assert_eq!(series(&history, "nvme0n1"), Some(&vec![42]));
    reconcile(
        &mut inventory,
        &mut history,
        nvme(Generation {
            diskseq: Some(2),
            dev_t: Some((259, 0)),
        }),
    );
    assert!(series(&history, "nvme0n1").unwrap().is_empty());

    reconcile(&mut inventory, &mut history, StorageInventory::default());
    assert!(series(&history, "nvme0n1").is_none());
}
