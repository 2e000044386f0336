use std::collections::HashSet;

use vault_watch::storage::{
    Generation, GraphViolation, Materialization, StorageEdge, StorageEdgeKind, StorageInventory,
    StorageKind, StorageNode, ThroughputSubject,
};

fn node(id: &str) -> StorageNode {
    StorageNode {
        id: id.to_owned(),
        name: id.to_owned(),
        kind: StorageKind::Other,
        materialization: Materialization::BlockDevice,
        removable: None,
        identities: Vec::new(),
        generation: Generation::default(),
    }
}

#[test]
fn traversal_terminates_when_graph_contains_cycle() {
    let graph = StorageInventory {
        nodes: vec![node("a"), node("b")],
        edges: vec![
            StorageEdge {
                from: "a".into(),
                to: "b".into(),
                kind: StorageEdgeKind::BackedBy,
            },
            StorageEdge {
                from: "b".into(),
                to: "a".into(),
                kind: StorageEdgeKind::BackedBy,
            },
        ],
        partial: false,
    };

    assert_eq!(
        graph.reachable_from("a").into_iter().collect::<HashSet<String>>(),
        HashSet::from(["a".into(), "b".into()])
    );
    assert_eq!(graph.validate(), Ok(()));
}

#[test]
fn validation_rejects_dangling_edges() {
    let graph = StorageInventory {
        nodes: vec![node("a")],
        edges: vec![StorageEdge {
            from: "a".into(),
            to: "missing".into(),
            kind: StorageEdgeKind::BackedBy,
        }],
        partial: false,
    };

    assert!(matches!(
        graph.validate(),
        Err(GraphViolation::DanglingEdge { .. })
    ));
}

#[test]
fn throughput_scope_selects_only_direct_whole_devices() {
    let mut whole = node("block:sda");
    whole.name = "sda".into();
    whole.kind = StorageKind::ScsiLike;
    whole.generation = Generation {
        diskseq: Some(10),
        dev_t: Some((8, 0)),
    };
    let mut partition = node("block:sda1");
    partition.name = "sda1".into();
    partition.materialization = Materialization::Partition;
    let mut virtual_node = node("block:loop0");
    virtual_node.name = "loop0".into();
    virtual_node.materialization = Materialization::Virtual;
    let mut stacked = node("block:dm-0");
    stacked.name = "dm-0".into();
    stacked.materialization = Materialization::Stacked;
    let inventory = StorageInventory {
        nodes: vec![whole, partition, virtual_node, stacked],
        edges: Vec::new(),
        partial: false,
    };

    assert_eq!(
        inventory.throughput_subjects(),
        vec![ThroughputSubject {
            name: "sda".into(),
            dev_t: Some((8, 0)),
            diskseq: Some(10),
        }]
    );
}

#[test]
fn reconciliation_replaces_a_device_incarnation_atomically() {
    let mut current = StorageInventory {
        nodes: vec![node_with_generation("block:sda", 10, (8, 0))],
        edges: Vec::new(),
        partial: false,
    };
    let next = StorageInventory {
        nodes: vec![node_with_generation("block:sda", 11, (8, 0))],
        edges: Vec::new(),
        partial: false,
    };

    assert_eq!(
        current.replaced_device_names(&next).into_iter().collect::<HashSet<String>>(),
        HashSet::from(["block:sda".into()])
    );
    current.reconcile(next);

    assert_eq!(current.nodes.len(), 1);
    assert_eq!(current.nodes[0].generation.diskseq, Some(11));
    assert!(!current.partial);
}

#[test]
fn failed_empty_snapshot_retains_last_known_graph_as_partial() {
    let mut current = StorageInventory {
        nodes: vec![node_with_generation("block:sda", 10, (8, 0))],
        edges: Vec::new(),
        partial: false,
    };

    current.reconcile(StorageInventory {
        partial: true,
        ..StorageInventory::default()
    });

    assert_eq!(current.nodes.len(), 1);
    assert_eq!(current.nodes[0].generation.diskseq, Some(10));
    assert!(current.partial);
}

#[test]
fn complete_empty_snapshot_removes_all_devices() {
    let mut current = StorageInventory {
        nodes: vec![node_with_generation("block:sda", 10, (8, 0))],
        edges: Vec::new(),
        partial: false,
    };

    current.reconcile(StorageInventory::default());

    assert!(current.nodes.is_empty());
    assert!(!current.partial);
}

fn node_with_generation(id: &str, diskseq: u64, dev_t: (u32, u32)) -> StorageNode {
    let mut node = node(id);
    node.generation = Generation {
        diskseq: Some(diskseq),
        dev_t: Some(dev_t),
    };
    node
}
