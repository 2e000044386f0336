//! The text of the topology view: one row per node, with labels that never
//! show identity claim values, device numbers or sequence numbers.
use vstd::prelude::*;

use crate::monitor::{DiskInfo, MetricAvailability, RaidAvailability};
use crate::storage::{Confidence, Materialization, StorageEdge, StorageEdgeKind, StorageInventory, StorageKind, StorageNode};
use crate::text::{decimal_chars, decimal_text};

verus! {

pub open spec fn kind_text(kind: StorageKind) -> Seq<char> {
    match kind {
        StorageKind::ScsiLike => "scsi-like"@,
        StorageKind::Nvme => "nvme"@,
        StorageKind::Mmc => "mmc"@,
        StorageKind::MdRaid => "md"@,
        StorageKind::DeviceMapper => "dm"@,
        StorageKind::Virtual => "virtual"@,
        StorageKind::Other => "unknown"@,
    }
}

pub fn kind_label(kind: StorageKind) -> (t: &'static str)
    ensures
        t@ == kind_text(kind),
{
    match kind {
        StorageKind::ScsiLike => "scsi-like",
        StorageKind::Nvme => "nvme",
        StorageKind::Mmc => "mmc",
        StorageKind::MdRaid => "md",
        StorageKind::DeviceMapper => "dm",
        StorageKind::Virtual => "virtual",
        StorageKind::Other => "unknown",
    }
}

pub open spec fn materialization_text(value: Materialization) -> Seq<char> {
    match value {
        Materialization::BlockDevice => "whole"@,
        Materialization::Partition => "partition"@,
        Materialization::Stacked => "stacked"@,
        Materialization::Virtual => "virtual"@,
        Materialization::Unknown => "unknown"@,
    }
}

pub fn materialization_label(value: Materialization) -> (t: &'static str)
    ensures
        t@ == materialization_text(value),
{
    match value {
        Materialization::BlockDevice => "whole",
        Materialization::Partition => "partition",
        Materialization::Stacked => "stacked",
        Materialization::Virtual => "virtual",
        Materialization::Unknown => "unknown",
    }
}

pub open spec fn removable_text(value: Option<bool>) -> Seq<char> {
    match value {
        Some(true) => "removable"@,
        Some(false) => "fixed"@,
        None => "unknown"@,
    }
}

pub fn removable_label(value: Option<bool>) -> (t: &'static str)
    ensures
        t@ == removable_text(value),
{
    match value {
        Some(true) => "removable",
        Some(false) => "fixed",
        None => "unknown",
    }
}

pub open spec fn has_confidence(node: StorageNode, level: Confidence) -> bool {
    exists|i: int| 0 <= i < node.identities@.len() && #[trigger] node.identities@[i].confidence == level
}

/// The best confidence among a node's identity claims, without the claims.
pub open spec fn confidence_text(node: StorageNode) -> Seq<char> {
    if has_confidence(node, Confidence::High) {
        "high"@
    } else if has_confidence(node, Confidence::Medium) {
        "medium"@
    } else {
        "low"@
    }
}

fn any_confidence(node: &StorageNode, level: Confidence) -> (r: bool)
    ensures
        r == has_confidence(*node, level),
{
    let mut i: usize = 0;
    while i < node.identities.len()
        invariant
            i <= node.identities@.len(),
            forall|k: int| 0 <= k < i ==> node.identities@[k].confidence != level,
        decreases node.identities@.len() - i,
    {
        if node.identities[i].confidence == level {
            return true;
        }
        i = i + 1;
    }
    false
}

pub fn confidence_label(node: &StorageNode) -> (t: &'static str)
    ensures
        t@ == confidence_text(*node),
{
    if any_confidence(node, Confidence::High) {
        "high"
    } else if any_confidence(node, Confidence::Medium) {
        "medium"
    } else {
        "low"
    }
}

pub open spec fn yes_no(b: bool) -> Seq<char> {
    if b {
        "yes"@
    } else {
        "no"@
    }
}

/// Whether a node has a disk sequence number and a device number, never
/// their values.
pub open spec fn generation_text(node: StorageNode) -> Seq<char> {
    "seq:"@ + yes_no(node.generation.diskseq is Some) + " dev:"@ + yes_no(
        node.generation.dev_t is Some,
    )
}

fn yes_no_label(b: bool) -> (t: &'static str)
    ensures
        t@ == yes_no(b),
{
    if b {
        "yes"
    } else {
        "no"
    }
}

pub fn generation_label(node: &StorageNode) -> (t: String)
    ensures
        t@ == generation_text(*node),
{
    String::from_str("seq:").concat(yes_no_label(node.generation.diskseq.is_some())).concat(
        " dev:",
    ).concat(yes_no_label(node.generation.dev_t.is_some()))
}

/// The cells of a node's row: name, materialization, kind, removability,
/// identity confidence, generation presence and the relation summary.
pub fn topology_values(node: &StorageNode, relations: String) -> (r: [String; 7])
    ensures
        r@[0]@ == node.name@,
        r@[1]@ == materialization_text(node.materialization),
        r@[2]@ == kind_text(node.kind),
        r@[3]@ == removable_text(node.removable),
        r@[4]@ == confidence_text(*node),
        r@[5]@ == generation_text(*node),
        r@[6]@ == relations@,
{
    [
        node.name.clone(),
        String::from_str(materialization_label(node.materialization)),
        String::from_str(kind_label(node.kind)),
        String::from_str(removable_label(node.removable)),
        String::from_str(confidence_label(node)),
        generation_label(node),
        relations,
    ]
}

/// The number of edges of each kind that touch node `id`, among the first
/// `k` edges.
pub open spec fn touching(edges: Seq<StorageEdge>, id: Seq<char>, kind: StorageEdgeKind, k: int) -> nat
    decreases k,
{
    if k <= 0 {
        0
    } else {
        touching(edges, id, kind, k - 1) + if (edges[k - 1].from@ == id || edges[k - 1].to@ == id)
            && edges[k - 1].kind == kind {
            1nat
        } else {
            0nat
        }
    }
}

pub open spec fn relation_text(edges: Seq<StorageEdge>, id: Seq<char>) -> Seq<char> {
    "part:"@ + decimal_chars(touching(edges, id, StorageEdgeKind::ContainsPartition, edges.len() as int))
        + " back:"@ + decimal_chars(touching(edges, id, StorageEdgeKind::BackedBy, edges.len() as int))
        + " md:"@ + decimal_chars(touching(edges, id, StorageEdgeKind::MemberOf, edges.len() as int))
}

/// How many partition, backing and membership relations a node takes part
/// in.
pub fn relation_summary(inventory: &StorageInventory, node: &StorageNode) -> (t: String)
    ensures
        t@ == relation_text(inventory.edges@, node.id@),
{
    let mut contains: u64 = 0;
    let mut backed_by: u64 = 0;
    let mut member_of: u64 = 0;
    let mut i: usize = 0;
    while i < inventory.edges.len()
        invariant
            i <= inventory.edges@.len(),
            contains == touching(inventory.edges@, node.id@, StorageEdgeKind::ContainsPartition, i as int),
            backed_by == touching(inventory.edges@, node.id@, StorageEdgeKind::BackedBy, i as int),
            member_of == touching(inventory.edges@, node.id@, StorageEdgeKind::MemberOf, i as int),
            contains + backed_by + member_of <= i,
        decreases inventory.edges@.len() - i,
    {
        let edge = &inventory.edges[i];
        if edge.from == node.id || edge.to == node.id {
            match edge.kind {
                StorageEdgeKind::ContainsPartition => {
                    contains = contains + 1;
                },
                StorageEdgeKind::BackedBy => {
                    backed_by = backed_by + 1;
                },
                StorageEdgeKind::MemberOf => {
                    member_of = member_of + 1;
                },
            }
        }
        i = i + 1;
    }
    String::from_str("part:").concat(decimal_text(contains).as_str()).concat(" back:").concat(
        decimal_text(backed_by).as_str(),
    ).concat(" md:").concat(decimal_text(member_of).as_str())
}

/// Where a node's health comes from and whether it is available: stale
/// while the inventory is partial; from MD sysfs for arrays; from the
/// collected SMART data for whole devices; otherwise topology only.
pub open spec fn health_observation_of(
    partial: bool,
    raid: RaidAvailability,
    disks: Seq<DiskInfo>,
    node: StorageNode,
) -> (MetricAvailability, Seq<char>, Seq<char>) {
    if partial {
        (MetricAvailability::Stale, "sysfs-topology"@, "last-known-node"@)
    } else if node.kind == StorageKind::MdRaid {
        if raid == RaidAvailability::Complete {
            (MetricAvailability::Available, "md-sysfs"@, "array"@)
        } else {
            (MetricAvailability::TemporarilyUnavailable, "md-sysfs"@, "array"@)
        }
    } else if node.materialization == Materialization::BlockDevice {
        match first_disk(disks, node.name@, 0) {
            Some(d) => (d.health_availability, "legacy-smart"@, "whole-device"@),
            None => (MetricAvailability::Unsupported, "topology-only"@, "whole-device"@),
        }
    } else if node.materialization == Materialization::Stacked {
        (MetricAvailability::Hidden, "topology-only"@, "stacked"@)
    } else {
        (MetricAvailability::Unsupported, "topology-only"@, materialization_text(node.materialization))
    }
}

/// The first disk from `i` on with this device name.
pub open spec fn first_disk(disks: Seq<DiskInfo>, name: Seq<char>, i: int) -> Option<DiskInfo>
    decreases disks.len() - i,
{
    if i < 0 || i >= disks.len() {
        None
    } else if disks[i].device@ == name {
        Some(disks[i])
    } else {
        first_disk(disks, name, i + 1)
    }
}

pub fn health_observation(
    partial: bool,
    raid: RaidAvailability,
    disks: &[DiskInfo],
    node: &StorageNode,
) -> (r: (MetricAvailability, &'static str, &'static str))
    ensures
        (r.0, r.1@, r.2@) == health_observation_of(partial, raid, disks@, *node),
{
    if partial {
        return (MetricAvailability::Stale, "sysfs-topology", "last-known-node");
    }
    if node.kind == StorageKind::MdRaid {
        if raid == RaidAvailability::Complete {
            return (MetricAvailability::Available, "md-sysfs", "array");
        }
        return (MetricAvailability::TemporarilyUnavailable, "md-sysfs", "array");
    }
    if node.materialization == Materialization::BlockDevice {
        let mut i: usize = 0;
        while i < disks.len()
            invariant
                !partial,
                node.kind != StorageKind::MdRaid,
                node.materialization == Materialization::BlockDevice,
                i <= disks@.len(),
                first_disk(disks@, node.name@, 0) == first_disk(disks@, node.name@, i as int),
            decreases disks@.len() - i,
        {
            if disks[i].device == node.name {
                return (disks[i].health_availability, "legacy-smart", "whole-device");
            }
            i = i + 1;
        }
        return (MetricAvailability::Unsupported, "topology-only", "whole-device");
    }
    if node.materialization == Materialization::Stacked {
        return (MetricAvailability::Hidden, "topology-only", "stacked");
    }
    (MetricAvailability::Unsupported, "topology-only", materialization_label(node.materialization))
}

} // verus!
