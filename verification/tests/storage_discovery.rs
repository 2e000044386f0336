use vault_watch::storage::{classify, Materialization, StorageKind};
use vault_watch::storage_discovery::{
    discovered_inventory, is_partition_uevent, removable_value, unreadable_inventory,
    DiscoveredEntry,
};

#[test]
fn classifies_protocol_views_without_claiming_physical_media() {
    assert_eq!(classify("sda"), StorageKind::ScsiLike);
    assert_eq!(classify("nvme0n1"), StorageKind::Nvme);
    assert_eq!(classify("mmcblk0"), StorageKind::Mmc);
    assert_eq!(classify("dm-0"), StorageKind::DeviceMapper);
    assert_eq!(classify("loop0"), StorageKind::Virtual);
}

#[test]
fn partition_uevent_needs_the_exact_line() {
    assert!(is_partition_uevent("MAJOR=8\nMINOR=1\nDEVNAME=sda1\nDEVTYPE=partition\n"));
    assert!(is_partition_uevent("DEVTYPE=partition"));
    assert!(!is_partition_uevent("MAJOR=8\nDEVTYPE=disk\n"));
    assert!(!is_partition_uevent("DEVTYPE=partitions\n"));
    assert!(!is_partition_uevent(""));
}

#[test]
fn removable_flag_is_zero_or_one() {
    assert_eq!(removable_value("0\n"), Some(false));
    assert_eq!(removable_value(" 1 "), Some(true));
    assert_eq!(removable_value("2\n"), None);
    assert_eq!(removable_value(""), None);
}

#[test]
fn discovery_sorts_whole_devices_and_marks_unreadable_entries() {
    let entry = |name: &str, partition: bool| {
        Some(DiscoveredEntry {
            name: name.to_string(),
            partition,
            removable: Some(false),
        })
    };
    let inventory = discovered_inventory(&[
        entry("sdb", false),
        entry("sda1", true),
        entry("nvme0n1", false),
        entry("sda", false),
    ]);
    let names: Vec<&str> = inventory.nodes.iter().map(|n| n.name.as_str()).collect();
    assert_eq!(names, ["nvme0n1", "sda", "sdb"]);
    assert_eq!(inventory.nodes[0].id, "block:nvme0n1");
    assert_eq!(inventory.nodes[1].materialization, Materialization::BlockDevice);
    assert!(!inventory.partial);

    let partial = discovered_inventory(&[entry("sda", false), None]);
    assert!(partial.partial);
    assert_eq!(partial.nodes.len(), 1);

    let unreadable = unreadable_inventory();
    assert!(unreadable.partial);
    assert!(unreadable.nodes.is_empty());
}
