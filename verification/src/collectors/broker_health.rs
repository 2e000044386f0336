//! Disk health read through the privilege broker: which devices are asked
//! about, what a SMART status means for the monitor, and when the broker
//! connection is given up and retried.
//!
//! The connection and the requests are made by the caller.
use vstd::prelude::*;

use crate::ata::SmartStatus;
use crate::broker::client::{connection_is_unusable, unusable, BrokerClientError};
use crate::broker::{BrokerAtaResponse, BrokerDeviceRef, BrokerGeneration};
use crate::monitor::{unavailable_disk, DiskInfo, DiskInfoView, HealthStatus, MetricAvailability};
use crate::storage::{Materialization, StorageInventory, StorageKind, StorageNode};
use crate::timing::NANOS_PER_SEC;

verus! {

/// Seconds to wait before connecting again after a failure.
pub const RECONNECT_BACKOFF_SECS: u64 = 30;

#[derive(Debug)]
pub struct BrokerHealthSnapshot {
    pub disks: Vec<DiskInfo>,
    /// Devices whose health the broker answered, in the order asked.
    pub handled_devices: Vec<String>,
    pub connected: bool,
}

impl Default for BrokerHealthSnapshot {
    fn default() -> (s: BrokerHealthSnapshot)
        ensures
            s.disks@.len() == 0,
            s.handled_devices@.len() == 0,
            !s.connected,
    {
        BrokerHealthSnapshot { disks: Vec::new(), handled_devices: Vec::new(), connected: false }
    }
}

#[derive(Debug, Clone, PartialEq, Eq)]
pub struct BrokerHealthSubject {
    pub device: String,
    pub device_ref: BrokerDeviceRef,
}

/// A node is asked about when it is a whole SCSI-like block device with a
/// disk sequence number and a device number.
pub open spec fn is_subject(node: StorageNode) -> bool {
    node.kind == StorageKind::ScsiLike && node.materialization == Materialization::BlockDevice
        && node.generation.diskseq is Some && node.generation.dev_t is Some
}

/// The subject asked about for a node.
pub open spec fn subject_matches(node: StorageNode, s: BrokerHealthSubject) -> bool {
    &&& s.device@ == node.name@
    &&& s.device_ref.node_id@ == node.id@
    &&& s.device_ref.generation == BrokerGeneration {
        diskseq: node.generation.diskseq->0,
        dev_major: (node.generation.dev_t->0).0,
        dev_minor: (node.generation.dev_t->0).1,
    }
}

/// The nodes asked about among the first `k`, in order.
pub open spec fn subject_nodes(nodes: Seq<StorageNode>, k: int) -> Seq<StorageNode>
    decreases k,
{
    if k <= 0 {
        seq![]
    } else if is_subject(nodes[k - 1]) {
        subject_nodes(nodes, k - 1).push(nodes[k - 1])
    } else {
        subject_nodes(nodes, k - 1)
    }
}

/// The devices of a complete inventory to ask the broker about.
pub fn broker_subjects(inventory: &StorageInventory) -> (r: Vec<BrokerHealthSubject>)
    ensures
        r@.len() == subject_nodes(inventory.nodes@, inventory.nodes@.len() as int).len(),
        forall|i: int|
            0 <= i < r@.len() ==> subject_matches(
                #[trigger] subject_nodes(inventory.nodes@, inventory.nodes@.len() as int)[i],
                r@[i],
            ),
{
    let mut subjects: Vec<BrokerHealthSubject> = Vec::new();
    let mut k: usize = 0;
    while k < inventory.nodes.len()
        invariant
            k <= inventory.nodes@.len(),
            subjects@.len() == subject_nodes(inventory.nodes@, k as int).len(),
            forall|i: int|
                0 <= i < subjects@.len() ==> subject_matches(
                    #[trigger] subject_nodes(inventory.nodes@, k as int)[i],
                    subjects@[i],
                ),
        decreases inventory.nodes@.len() - k,
    {
        let node = &inventory.nodes[k];
        if node.kind == StorageKind::ScsiLike && node.materialization == Materialization::BlockDevice {
            match (node.generation.diskseq, node.generation.dev_t) {
                (Some(diskseq), Some((dev_major, dev_minor))) => {
                    subjects.push(
                        BrokerHealthSubject {
                            device: node.name.clone(),
                            device_ref: BrokerDeviceRef {
                                node_id: node.id.clone(),
                                generation: BrokerGeneration { diskseq, dev_major, dev_minor },
                            },
                        },
                    );
                },
                _ => {},
            }
        }
        k = k + 1;
    }
    subjects
}

/// The monitor's view of a SMART status: passed is healthy, predicted
/// failure is failed, an unknown signature is malformed and gives no
/// verdict.
pub open spec fn disk_of_status(device: Seq<char>, status: SmartStatus) -> DiskInfoView {
    match status {
        SmartStatus::Passed => DiskInfoView {
            health: HealthStatus::Healthy,
            health_availability: MetricAvailability::Available,
            ..unavailable_disk(device)
        },
        SmartStatus::PredictingFailure => DiskInfoView {
            health: HealthStatus::Failed,
            health_availability: MetricAvailability::Available,
            ..unavailable_disk(device)
        },
        SmartStatus::Unknown => DiskInfoView {
            health_availability: MetricAvailability::Malformed,
            ..unavailable_disk(device)
        },
    }
}

pub fn disk_from_status(device: String, status: SmartStatus) -> (d: DiskInfo)
    ensures
        d@ == disk_of_status(device@, status),
{
    let mut disk = DiskInfo::unavailable(device);
    match status {
        SmartStatus::Passed => {
            disk.health = HealthStatus::Healthy;
            disk.health_availability = MetricAvailability::Available;
        },
        SmartStatus::PredictingFailure => {
            disk.health = HealthStatus::Failed;
            disk.health_availability = MetricAvailability::Available;
        },
        SmartStatus::Unknown => {
            disk.health_availability = MetricAvailability::Malformed;
        },
    }
    disk
}

/// Whether a round may try to connect: only once the backoff has passed.
pub fn may_connect(next_connect_at_nanos: Option<u128>, now_nanos: u128) -> (r: bool)
    ensures
        r == !(next_connect_at_nanos matches Some(deadline) && now_nanos < deadline),
{
    match next_connect_at_nanos {
        Some(deadline) => now_nanos >= deadline,
        None => true,
    }
}

/// When to try again after a failed or abandoned connection.
pub fn reconnect_deadline(now_nanos: u128) -> (r: u128)
    ensures
        r == if now_nanos as int + RECONNECT_BACKOFF_SECS * NANOS_PER_SEC > u128::MAX {
            u128::MAX
        } else {
            (now_nanos + RECONNECT_BACKOFF_SECS * NANOS_PER_SEC) as u128
        },
{
    now_nanos.saturating_add(RECONNECT_BACKOFF_SECS as u128 * NANOS_PER_SEC)
}

/// Whether the round goes on after a subject's answer.
#[derive(Debug, Clone, Copy, PartialEq, Eq, Structural)]
pub enum HealthStep {
    Continue,
    ResetConnection,
}

/// The step after an answer: a SMART status is recorded; any other response
/// or an error that leaves the connection unusable ends the round and the
/// connection; other errors skip the subject.
pub open spec fn step_of(result: Result<BrokerAtaResponse, BrokerClientError>) -> HealthStep {
    match result {
        Ok(BrokerAtaResponse::SmartStatus(_)) => HealthStep::Continue,
        Ok(_) => HealthStep::ResetConnection,
        Err(e) => if unusable(e) {
            HealthStep::ResetConnection
        } else {
            HealthStep::Continue
        },
    }
}

/// Records the broker's answer for one subject in the round's snapshot.
pub fn record_health_answer(
    snapshot: &mut BrokerHealthSnapshot,
    subject: &BrokerHealthSubject,
    result: Result<BrokerAtaResponse, BrokerClientError>,
) -> (step: HealthStep)
    ensures
        step == step_of(result),
        match result {
            Ok(BrokerAtaResponse::SmartStatus(status)) => {
                &&& final(snapshot).disks@.len() == old(snapshot).disks@.len() + 1
                &&& final(snapshot).disks@.drop_last() == old(snapshot).disks@
                &&& final(snapshot).disks@.last()@ == disk_of_status(subject.device@, status)
                &&& final(snapshot).handled_devices@.len() == old(snapshot).handled_devices@.len() + 1
                &&& final(snapshot).handled_devices@.drop_last() == old(snapshot).handled_devices@
                &&& final(snapshot).handled_devices@.last()@ == subject.device@
                &&& final(snapshot).connected == old(snapshot).connected
            },
            _ => {
                &&& final(snapshot).disks@ == old(snapshot).disks@
                &&& final(snapshot).handled_devices@ == old(snapshot).handled_devices@
                &&& final(snapshot).connected == (old(snapshot).connected && step == HealthStep::Continue)
            },
        },
{
    match result {
        Ok(BrokerAtaResponse::SmartStatus(status)) => {
            snapshot.disks.push(disk_from_status(subject.device.clone(), status));
            snapshot.handled_devices.push(subject.device.clone());
            HealthStep::Continue
        },
        Ok(_) => {
            snapshot.connected = false;
            HealthStep::ResetConnection
        },
        Err(e) => {
            if connection_is_unusable(e) {
                snapshot.connected = false;
                HealthStep::ResetConnection
            } else {
                HealthStep::Continue
            }
        },
    }
}

} // verus!
