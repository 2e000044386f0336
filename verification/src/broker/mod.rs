//! Privilege-broker request contract and authorization policy.
//!
//! Clients can request only fixed high-level monitoring operations; every
//! limit of an authorized request comes from the broker, never from the
//! client. No IPC, path opening or ioctl happens here.
use vstd::prelude::*;
use vstd::string::*;
use vstd::utf8::*;

use crate::ata::{AtaLogDirectory, AtaMedium, SmartAttribute, SmartStatus};
use crate::storage::{
    count_nodes, node_with_id, Generation, Materialization, StorageInventory, StorageKind,
    StorageNode,
};
use crate::timing::TimeSpan;

pub mod wire;
pub mod response;
pub mod server;
pub mod device;
pub mod capability;
pub mod client;
pub mod unix;



verus! {

pub const MAX_DEVICE_ID_LEN: usize = 128;

#[derive(Debug, Clone, Copy, PartialEq, Eq, Structural)]
pub enum AtaBrokerOperation {
    IdentifyDevice,
    SmartReadData,
    SmartReadThresholds,
    SmartReturnStatus,
    ReadGplDirectory,
}

/// Fixed execution timeout of an operation, in seconds.
pub open spec fn operation_timeout_secs(operation: AtaBrokerOperation) -> u64 {
    match operation {
        AtaBrokerOperation::IdentifyDevice
        | AtaBrokerOperation::SmartReadData
        | AtaBrokerOperation::SmartReadThresholds => 5,
        AtaBrokerOperation::SmartReturnStatus => 2,
        AtaBrokerOperation::ReadGplDirectory => 10,
    }
}

/// Fixed response size limit of an operation, in bytes.
pub open spec fn operation_response_limit(operation: AtaBrokerOperation) -> usize {
    match operation {
        AtaBrokerOperation::SmartReturnStatus => 0,
        _ => 512,
    }
}

impl AtaBrokerOperation {
    pub fn timeout(self) -> (t: TimeSpan)
        ensures
            t.nanos == operation_timeout_secs(self) * 1_000_000_000,
    {
        match self {
            AtaBrokerOperation::IdentifyDevice
            | AtaBrokerOperation::SmartReadData
            | AtaBrokerOperation::SmartReadThresholds => TimeSpan::from_secs(5),
            AtaBrokerOperation::SmartReturnStatus => TimeSpan::from_secs(2),
            AtaBrokerOperation::ReadGplDirectory => TimeSpan::from_secs(10),
        }
    }

    pub fn response_limit(self) -> (n: usize)
        ensures
            n == operation_response_limit(self),
    {
        match self {
            AtaBrokerOperation::SmartReturnStatus => 0,
            _ => 512,
        }
    }
}

#[derive(Debug, Clone, PartialEq, Eq)]
pub struct BrokerDeviceRef {
    pub node_id: String,
    pub generation: BrokerGeneration,
}

#[derive(Debug, Clone, Copy, PartialEq, Eq, Structural)]
pub struct BrokerGeneration {
    pub diskseq: u64,
    pub dev_major: u32,
    pub dev_minor: u32,
}

#[derive(Debug, Clone, PartialEq, Eq)]
pub struct BrokerRequest {
    pub request_id: u64,
    pub device: BrokerDeviceRef,
    pub operation: AtaBrokerOperation,
}

/// A request with its device id taken as text.
pub struct BrokerRequestView {
    pub request_id: u64,
    pub node_id: Seq<char>,
    pub generation: BrokerGeneration,
    pub operation: AtaBrokerOperation,
}

impl View for BrokerRequest {
    type V = BrokerRequestView;

    open spec fn view(&self) -> BrokerRequestView {
        BrokerRequestView {
            request_id: self.request_id,
            node_id: self.device.node_id@,
            generation: self.device.generation,
            operation: self.operation,
        }
    }
}

#[derive(Debug, Clone, Copy, PartialEq, Eq, Structural)]
pub enum GrantedBackend {
    AtaSat,
}

#[derive(Debug, Clone, Copy, PartialEq, Eq, Structural)]
pub struct AtaCapabilityGrant {
    pub smart: bool,
    pub smart_thresholds: bool,
    pub gpl: bool,
}

impl Default for AtaCapabilityGrant {
    /// Nothing beyond IDENTIFY DEVICE is granted.
    fn default() -> (g: AtaCapabilityGrant)
        ensures
            !g.smart && !g.smart_thresholds && !g.gpl,
    {
        AtaCapabilityGrant { smart: false, smart_thresholds: false, gpl: false }
    }
}

/// Broker-owned authorization state. This must be derived from discovery and
/// capability negotiation inside the trusted process, never supplied by IPC.
#[derive(Debug, Clone, PartialEq, Eq)]
pub struct BrokerDeviceGrant {
    pub node_id: String,
    pub generation: BrokerGeneration,
    pub backend: GrantedBackend,
    pub ata: AtaCapabilityGrant,
}

#[derive(Debug, Clone, Copy, PartialEq, Eq, Structural)]
pub enum BrokerDenyReason {
    InvalidRequestId,
    InvalidDeviceId,
    MissingGeneration,
    PartialInventory,
    UnknownDevice,
    DuplicateDevice,
    NotWholeDevice,
    WrongProtocolView,
    GrantDeviceMismatch,
    StaleGeneration,
    CapabilityNotGranted,
}

#[derive(Debug, Clone, PartialEq, Eq)]
pub struct AuthorizedBrokerRequest {
    pub(crate) request_id: u64,
    pub(crate) node_id: String,
    pub(crate) generation: BrokerGeneration,
    pub(crate) operation: AtaBrokerOperation,
    pub(crate) timeout: TimeSpan,
    pub(crate) response_limit: usize,
}

impl AuthorizedBrokerRequest {
    pub closed spec fn request_id_of(&self) -> u64 {
        self.request_id
    }

    pub closed spec fn node_id_of(&self) -> Seq<char> {
        self.node_id@
    }

    pub closed spec fn generation_of(&self) -> BrokerGeneration {
        self.generation
    }

    pub closed spec fn operation_of(&self) -> AtaBrokerOperation {
        self.operation
    }

    pub closed spec fn timeout_of(&self) -> TimeSpan {
        self.timeout
    }

    pub closed spec fn response_limit_of(&self) -> usize {
        self.response_limit
    }

    pub fn request_id(&self) -> (r: u64)
        ensures
            r == self.request_id_of(),
    {
        self.request_id
    }

    pub fn node_id(&self) -> (r: &str)
        ensures
            r@ == self.node_id_of(),
    {
        self.node_id.as_str()
    }

    pub fn generation(&self) -> (r: BrokerGeneration)
        ensures
            r == self.generation_of(),
    {
        self.generation
    }

    pub fn operation(&self) -> (r: AtaBrokerOperation)
        ensures
            r == self.operation_of(),
    {
        self.operation
    }

    pub fn timeout(&self) -> (r: TimeSpan)
        ensures
            r == self.timeout_of(),
    {
        self.timeout
    }

    pub fn response_limit(&self) -> (r: usize)
        ensures
            r == self.response_limit_of(),
    {
        self.response_limit
    }
}

#[derive(Debug, Clone, Copy, PartialEq, Eq, Structural)]
pub struct OpenedDeviceEvidence {
    pub is_block_device: bool,
    pub is_partition: bool,
    pub opened_read_only: bool,
    pub generation: BrokerGeneration,
}

#[derive(Debug, Clone, Copy, PartialEq, Eq, Structural)]
pub enum ExecutionDenyReason {
    NotBlockDevice,
    Partition,
    NotReadOnly,
    IdentityChangedAfterOpen,
}

#[derive(Debug, Clone, PartialEq, Eq)]
pub struct VerifiedExecutionPlan {
    pub(crate) request_id: u64,
    pub(crate) node_id: String,
    pub(crate) generation: BrokerGeneration,
    pub(crate) operation: AtaBrokerOperation,
    pub(crate) timeout: TimeSpan,
    pub(crate) response_limit: usize,
}

impl VerifiedExecutionPlan {
    pub closed spec fn request_id_of(&self) -> u64 {
        self.request_id
    }

    pub closed spec fn node_id_of(&self) -> Seq<char> {
        self.node_id@
    }

    pub closed spec fn generation_of(&self) -> BrokerGeneration {
        self.generation
    }

    pub closed spec fn operation_of(&self) -> AtaBrokerOperation {
        self.operation
    }

    pub closed spec fn timeout_of(&self) -> TimeSpan {
        self.timeout
    }

    pub closed spec fn response_limit_of(&self) -> usize {
        self.response_limit
    }

    pub fn request_id(&self) -> (r: u64)
        ensures
            r == self.request_id_of(),
    {
        self.request_id
    }

    pub fn operation(&self) -> (r: AtaBrokerOperation)
        ensures
            r == self.operation_of(),
    {
        self.operation
    }
}

/// The denial, if any, of executing an authorized request on an opened
/// descriptor with the given evidence.
pub open spec fn execution_denial(
    authorized_generation: BrokerGeneration,
    evidence: OpenedDeviceEvidence,
) -> Option<ExecutionDenyReason> {
    if !evidence.is_block_device {
        Some(ExecutionDenyReason::NotBlockDevice)
    } else if evidence.is_partition {
        Some(ExecutionDenyReason::Partition)
    } else if !evidence.opened_read_only {
        Some(ExecutionDenyReason::NotReadOnly)
    } else if evidence.generation != authorized_generation {
        Some(ExecutionDenyReason::IdentityChangedAfterOpen)
    } else {
        None
    }
}

/// Revalidates broker-owned evidence collected from an already opened file
/// descriptor. No path or client-provided evidence is accepted here.
pub fn revalidate_opened_device(
    authorized: &AuthorizedBrokerRequest,
    evidence: OpenedDeviceEvidence,
) -> (r: Result<VerifiedExecutionPlan, ExecutionDenyReason>)
    ensures
        execution_denial(authorized.generation_of(), evidence) matches Some(reason) ==> r
            == Err::<VerifiedExecutionPlan, ExecutionDenyReason>(reason),
        execution_denial(authorized.generation_of(), evidence) is None ==> (r matches Ok(plan) && (
        plan.request_id_of() == authorized.request_id_of() && plan.node_id_of()
            == authorized.node_id_of() && plan.generation_of() == authorized.generation_of()
            && plan.operation_of() == authorized.operation_of() && plan.timeout_of()
            == authorized.timeout_of() && plan.response_limit_of()
            == authorized.response_limit_of())),
{
    if !evidence.is_block_device {
        return Err(ExecutionDenyReason::NotBlockDevice);
    }
    if evidence.is_partition {
        return Err(ExecutionDenyReason::Partition);
    }
    if !evidence.opened_read_only {
        return Err(ExecutionDenyReason::NotReadOnly);
    }
    if evidence.generation != authorized.generation {
        return Err(ExecutionDenyReason::IdentityChangedAfterOpen);
    }
    Ok(
        VerifiedExecutionPlan {
            request_id: authorized.request_id,
            node_id: authorized.node_id.clone(),
            generation: authorized.generation,
            operation: authorized.operation,
            timeout: authorized.timeout,
            response_limit: authorized.response_limit,
        },
    )
}

/// A byte allowed in a device id: ASCII letters and digits, ':', '_', '-', '.'.
pub open spec fn device_id_byte(b: u8) -> bool {
    (0x30 <= b && b <= 0x39) || (0x41 <= b && b <= 0x5a) || (0x61 <= b && b <= 0x7a) || b == 0x3a
        || b == 0x5f || b == 0x2d || b == 0x2e
}

/// A device id is 1 to 128 bytes, each an allowed byte.
pub open spec fn valid_device_id_bytes(bytes: Seq<u8>) -> bool {
    &&& 0 < bytes.len() <= MAX_DEVICE_ID_LEN
    &&& forall|i: int| 0 <= i < bytes.len() ==> device_id_byte(#[trigger] bytes[i])
}

/// Whether the text `id` is a valid device id.
pub open spec fn valid_device_id_text(id: Seq<char>) -> bool {
    valid_device_id_bytes(encode_utf8(id))
}

pub(crate) fn valid_device_id(value: &str) -> (r: bool)
    ensures
        r == valid_device_id_text(value@),
{
    let bytes = value.as_bytes();
    if bytes.len() == 0 || bytes.len() > MAX_DEVICE_ID_LEN {
        return false;
    }
    let mut i: usize = 0;
    while i < bytes.len()
        invariant
            i <= bytes@.len(),
            bytes@ == encode_utf8(value@),
            forall|k: int| 0 <= k < i ==> device_id_byte(#[trigger] bytes@[k]),
        decreases bytes@.len() - i,
    {
        let b = bytes[i];
        if !((0x30 <= b && b <= 0x39) || (0x41 <= b && b <= 0x5a) || (0x61 <= b && b <= 0x7a) || b
            == 0x3a || b == 0x5f || b == 0x2d || b == 0x2e) {
            return false;
        }
        i = i + 1;
    }
    true
}

/// Whether `grant` allows `operation`. IDENTIFY DEVICE is always allowed.
pub open spec fn operation_allowed(operation: AtaBrokerOperation, grant: AtaCapabilityGrant) -> bool {
    match operation {
        AtaBrokerOperation::IdentifyDevice => true,
        AtaBrokerOperation::SmartReadData | AtaBrokerOperation::SmartReturnStatus => grant.smart,
        AtaBrokerOperation::SmartReadThresholds => grant.smart && grant.smart_thresholds,
        AtaBrokerOperation::ReadGplDirectory => grant.gpl,
    }
}

fn operation_granted(operation: AtaBrokerOperation, grant: AtaCapabilityGrant) -> (r: bool)
    ensures
        r == operation_allowed(operation, grant),
{
    match operation {
        AtaBrokerOperation::IdentifyDevice => true,
        AtaBrokerOperation::SmartReadData | AtaBrokerOperation::SmartReturnStatus => grant.smart,
        AtaBrokerOperation::SmartReadThresholds => grant.smart && grant.smart_thresholds,
        AtaBrokerOperation::ReadGplDirectory => grant.gpl,
    }
}

/// The broker generation of a storage generation, when both the disk
/// sequence number and the device number are known.
pub open spec fn broker_generation_of(generation: Generation) -> Option<BrokerGeneration> {
    match (generation.diskseq, generation.dev_t) {
        (Some(diskseq), Some((dev_major, dev_minor))) => Some(
            BrokerGeneration { diskseq, dev_major, dev_minor },
        ),
        _ => None,
    }
}

pub(crate) fn broker_generation(generation: &Generation) -> (r: Option<BrokerGeneration>)
    ensures
        r == broker_generation_of(*generation),
{
    match (generation.diskseq, generation.dev_t) {
        (Some(diskseq), Some((dev_major, dev_minor))) => Some(
            BrokerGeneration { diskseq, dev_major, dev_minor },
        ),
        _ => None,
    }
}

pub open spec fn has_id(id: Seq<char>) -> spec_fn(StorageNode) -> bool {
    |n: StorageNode| n.id@ == id
}

/// The decision on an ATA broker request, in the order the checks apply.
/// On success it is the generation the request is bound to.
pub open spec fn authorization_decision(
    nodes: Seq<StorageNode>,
    partial: bool,
    grant: BrokerDeviceGrant,
    request: BrokerRequestView,
) -> Result<BrokerGeneration, BrokerDenyReason> {
    let matching = count_nodes(nodes, has_id(request.node_id));
    let node = nodes[node_with_id(nodes, request.node_id)];
    if request.request_id == 0 {
        Err(BrokerDenyReason::InvalidRequestId)
    } else if !valid_device_id_text(request.node_id) {
        Err(BrokerDenyReason::InvalidDeviceId)
    } else if partial {
        Err(BrokerDenyReason::PartialInventory)
    } else if matching == 0 {
        Err(BrokerDenyReason::UnknownDevice)
    } else if matching > 1 {
        Err(BrokerDenyReason::DuplicateDevice)
    } else if node.materialization != Materialization::BlockDevice {
        Err(BrokerDenyReason::NotWholeDevice)
    } else if node.kind != StorageKind::ScsiLike {
        Err(BrokerDenyReason::WrongProtocolView)
    } else if grant.backend != GrantedBackend::AtaSat || grant.node_id@ != request.node_id {
        Err(BrokerDenyReason::GrantDeviceMismatch)
    } else if broker_generation_of(node.generation) is None {
        Err(BrokerDenyReason::MissingGeneration)
    } else if request.generation != broker_generation_of(node.generation).unwrap()
        || grant.generation != broker_generation_of(node.generation).unwrap() {
        Err(BrokerDenyReason::StaleGeneration)
    } else if !operation_allowed(request.operation, grant.ata) {
        Err(BrokerDenyReason::CapabilityNotGranted)
    } else {
        Ok(broker_generation_of(node.generation).unwrap())
    }
}

proof fn lemma_count_zero_none(nodes: Seq<StorageNode>, id: Seq<char>)
    ensures
        count_nodes(nodes, has_id(id)) == 0 <==> forall|k: int|
            0 <= k < nodes.len() ==> nodes[k].id@ != id,
    decreases nodes.len(),
{
    if nodes.len() > 0 {
        lemma_count_zero_none(nodes.drop_last(), id);
        assert forall|k: int| 0 <= k < nodes.len() - 1 implies nodes.drop_last()[k] == nodes[k] by {}
    }
}

/// Finds the single inventory node with the requested id, or tells whether
/// there is none or more than one. On `Ok(Some(i))`, `i` is that node.
fn unique_node(nodes: &Vec<StorageNode>, id: &String) -> (r: Result<usize, BrokerDenyReason>)
    ensures
        count_nodes(nodes@, has_id(id@)) == 0 ==> r == Err::<usize, BrokerDenyReason>(
            BrokerDenyReason::UnknownDevice,
        ),
        count_nodes(nodes@, has_id(id@)) > 1 ==> r == Err::<usize, BrokerDenyReason>(
            BrokerDenyReason::DuplicateDevice,
        ),
        count_nodes(nodes@, has_id(id@)) == 1 ==> (r matches Ok(i) && i == node_with_id(
            nodes@,
            id@,
        ) && i < nodes@.len() && nodes@[i as int].id@ == id@),
{
    let mut found: Option<usize> = None;
    let mut count: usize = 0;
    let mut i: usize = 0;
    while i < nodes.len()
        invariant
            i <= nodes@.len(),
            count <= i,
            count == count_nodes(nodes@.take(i as int), has_id(id@)),
            count == 0 <==> found is None,
            found matches Some(f) ==> f < i && nodes@[f as int].id@ == id@,
            count <= 1 ==> forall|k: int|
                0 <= k < i && nodes@[k].id@ == id@ ==> found == Some(k as usize),
        decreases nodes@.len() - i,
    {
        assert(nodes@.take(i + 1).drop_last() =~= nodes@.take(i as int));
        if nodes[i].id == *id {
            if found.is_none() {
                found = Some(i);
            }
            count = count + 1;
        }
        i = i + 1;
    }
    assert(nodes@.take(nodes@.len() as int) =~= nodes@);
    if count == 0 {
        return Err(BrokerDenyReason::UnknownDevice);
    }
    if count > 1 {
        return Err(BrokerDenyReason::DuplicateDevice);
    }
    let f = found.unwrap();
    proof {
        let g = node_with_id(nodes@, id@);
        assert(nodes@[f as int].id@ == id@);
        if g != f as int {
            assert(nodes@[g].id@ == id@);
        }
    }
    Ok(f)
}

/// Authorizes a client request against broker-owned inventory and grant.
/// The timeout and response limit of the result are fixed by the operation.
pub fn authorize_ata_request(
    inventory: &StorageInventory,
    grant: &BrokerDeviceGrant,
    request: &BrokerRequest,
) -> (r: Result<AuthorizedBrokerRequest, BrokerDenyReason>)
    ensures
        authorization_decision(inventory.nodes@, inventory.partial, *grant, request@) matches Err(
            reason,
        ) ==> r == Err::<AuthorizedBrokerRequest, BrokerDenyReason>(reason),
        authorization_decision(inventory.nodes@, inventory.partial, *grant, request@) matches Ok(
            generation,
        ) ==> (r matches Ok(a) && (a.request_id_of() == request.request_id && a.node_id_of()
            == request.device.node_id@ && a.generation_of() == generation && a.operation_of()
            == request.operation && a.timeout_of().nanos == operation_timeout_secs(
            request.operation,
        ) * 1_000_000_000 && a.response_limit_of() == operation_response_limit(
            request.operation,
        ))),
{
    if request.request_id == 0 {
        return Err(BrokerDenyReason::InvalidRequestId);
    }
    if !valid_device_id(request.device.node_id.as_str()) {
        return Err(BrokerDenyReason::InvalidDeviceId);
    }
    if inventory.partial {
        return Err(BrokerDenyReason::PartialInventory);
    }
    let index = unique_node(&inventory.nodes, &request.device.node_id)?;
    let node = &inventory.nodes[index];
    if node.materialization != Materialization::BlockDevice {
        return Err(BrokerDenyReason::NotWholeDevice);
    }
    if node.kind != StorageKind::ScsiLike {
        return Err(BrokerDenyReason::WrongProtocolView);
    }
    if grant.backend != GrantedBackend::AtaSat || grant.node_id != request.device.node_id
        || grant.node_id != node.id {
        return Err(BrokerDenyReason::GrantDeviceMismatch);
    }
    let node_generation = match broker_generation(&node.generation) {
        Some(generation) => generation,
        None => {
            return Err(BrokerDenyReason::MissingGeneration);
        },
    };
    if request.device.generation != node_generation || grant.generation != node_generation {
        return Err(BrokerDenyReason::StaleGeneration);
    }
    if !operation_granted(request.operation, grant.ata) {
        return Err(BrokerDenyReason::CapabilityNotGranted);
    }
    Ok(
        AuthorizedBrokerRequest {
            request_id: request.request_id,
            node_id: node.id.clone(),
            generation: node_generation,
            operation: request.operation,
            timeout: request.operation.timeout(),
            response_limit: request.operation.response_limit(),
        },
    )
}

/// Capacity, medium and optional feature support reported by IDENTIFY DEVICE.
#[derive(Debug, Clone, Copy, PartialEq, Eq, Structural)]
pub struct AtaIdentifySummary {
    pub capacity_bytes: Option<u128>,
    pub medium: AtaMedium,
    pub smart_supported: bool,
    pub general_purpose_logging_supported: bool,
}

/// Typed result of one broker operation. No raw device buffer crosses the
/// broker boundary.
#[derive(Debug, Clone, PartialEq, Eq)]
pub enum BrokerAtaResponse {
    Identify(AtaIdentifySummary),
    SmartData(Vec<SmartAttribute>),
    SmartThresholds(Vec<(u8, u8)>),
    SmartStatus(SmartStatus),
    GplDirectory(AtaLogDirectory),
}

} // verus!
