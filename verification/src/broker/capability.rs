//! Capability negotiation of the broker: which inventory nodes are probed,
//! what SCSI evidence proves an ATA disk behind SAT, and which optional ATA
//! commands a grant may include.
//!
//! The probes themselves (opening the device, SG_IO) are run by the caller,
//! which hands each outcome to these functions.
use vstd::prelude::*;

use crate::scsi::mapping::{MappingAvailability, MappingError, ScsiGenericMapping};
use crate::scsi::sg_uapi::SgIoCompletion;
use crate::scsi::{
    ata_information_prefix_of,
    parse_ata_information_vpd_prefix,
    parse_standard_inquiry,
    parse_supported_vpd_pages,
    standard_inquiry_of,
    vpd_code,
    vpd_frame,
    VpdPage,
};
use crate::storage::{Materialization, StorageInventory, StorageKind, StorageNode};

use super::device::BrokerAtaExecutionError;
use super::{
    broker_generation, broker_generation_of, AtaCapabilityGrant, AtaIdentifySummary, BrokerDeviceGrant,
    BrokerGeneration, GrantedBackend,
};

verus! {

pub const SCSI_SENSE_LEN: usize = 64;
pub const SCSI_TIMEOUT_MS: u32 = 5_000;
pub const STANDARD_INQUIRY_LEN: u8 = 96;
pub const VPD_ALLOCATION_LEN: u8 = 255;
pub const ATA_IDENTIFY_DEVICE_COMMAND: u8 = 0xec;

#[derive(Debug, Clone, Copy, PartialEq, Eq, Structural)]
pub enum BrokerCapabilityOutcome {
    GrantedAta,
    NotCandidate,
    PartialInventory,
    MissingGeneration,
    NoScsiGeneric,
    AmbiguousScsiGeneric,
    NativeScsiOrAtapi,
    DeviceUnavailable,
    PermissionDenied,
    StaleOrInvalidDevice,
    TransportUnavailable,
    MalformedEvidence,
    WorkerJoin,
}

#[derive(Debug, Clone, PartialEq, Eq)]
pub struct BrokerCapabilityReport {
    pub grants: Vec<BrokerDeviceGrant>,
    pub outcomes: Vec<BrokerCapabilityOutcome>,
}

/// A partial inventory is never probed: the report says so and grants
/// nothing. A complete one is probed node by node.
pub fn partial_inventory_report(inventory: &StorageInventory) -> (r: Option<BrokerCapabilityReport>)
    ensures
        inventory.partial ==> (r matches Some(report) && report.grants@.len() == 0
            && report.outcomes@ == seq![BrokerCapabilityOutcome::PartialInventory]),
        !inventory.partial ==> r is None,
{
    if inventory.partial {
        let outcomes = vec![BrokerCapabilityOutcome::PartialInventory];
        assert(outcomes@ =~= seq![BrokerCapabilityOutcome::PartialInventory]);
        Some(BrokerCapabilityReport { grants: Vec::new(), outcomes })
    } else {
        None
    }
}

/// Whether a node is probed, and under which generation: only whole
/// SCSI-like block devices with a complete generation.
pub open spec fn candidate_of(node: StorageNode) -> Result<BrokerGeneration, BrokerCapabilityOutcome> {
    if node.materialization != Materialization::BlockDevice || node.kind != StorageKind::ScsiLike {
        Err(BrokerCapabilityOutcome::NotCandidate)
    } else {
        match broker_generation_of(node.generation) {
            Some(generation) => Ok(generation),
            None => Err(BrokerCapabilityOutcome::MissingGeneration),
        }
    }
}

/// The generation to probe a node under; a node that is not probed gets its
/// outcome recorded instead.
pub fn candidate_generation(node: &StorageNode, outcomes: &mut Vec<BrokerCapabilityOutcome>) -> (r:
    Option<BrokerGeneration>)
    ensures
        match candidate_of(*node) {
            Ok(generation) => r == Some(generation) && final(outcomes)@ == old(outcomes)@,
            Err(outcome) => r is None && final(outcomes)@ == old(outcomes)@.push(outcome),
        },
{
    if node.materialization != Materialization::BlockDevice || node.kind != StorageKind::ScsiLike {
        outcomes.push(BrokerCapabilityOutcome::NotCandidate);
        return None;
    }
    match broker_generation(&node.generation) {
        Some(generation) => Some(generation),
        None => {
            outcomes.push(BrokerCapabilityOutcome::MissingGeneration);
            None
        },
    }
}

/// The outcome of the SCSI generic discovery for a candidate, or `None`
/// when it found exactly one locator and nothing was rejected.
pub open spec fn mapping_outcome_of(mapping: Result<ScsiGenericMapping, MappingError>) -> Option<
    BrokerCapabilityOutcome,
> {
    match mapping {
        Err(_) => Some(BrokerCapabilityOutcome::AmbiguousScsiGeneric),
        Ok(m) => match m.availability {
            MappingAvailability::NoScsiGenericInterface => Some(BrokerCapabilityOutcome::NoScsiGeneric),
            MappingAvailability::DeviceGone | MappingAvailability::Unreadable => Some(
                BrokerCapabilityOutcome::DeviceUnavailable,
            ),
            MappingAvailability::Complete => if m.entries@.len() == 0 && m.rejected_entries == 0 {
                Some(BrokerCapabilityOutcome::NoScsiGeneric)
            } else if m.rejected_entries != 0 || m.entries@.len() != 1 {
                Some(BrokerCapabilityOutcome::AmbiguousScsiGeneric)
            } else {
                None
            },
        },
    }
}

pub fn mapping_outcome(mapping: &Result<ScsiGenericMapping, MappingError>) -> (r: Option<
    BrokerCapabilityOutcome,
>)
    ensures
        r == mapping_outcome_of(*mapping),
{
    match mapping {
        Err(_) => Some(BrokerCapabilityOutcome::AmbiguousScsiGeneric),
        Ok(m) => match m.availability {
            MappingAvailability::NoScsiGenericInterface => Some(BrokerCapabilityOutcome::NoScsiGeneric),
            MappingAvailability::DeviceGone | MappingAvailability::Unreadable => Some(
                BrokerCapabilityOutcome::DeviceUnavailable,
            ),
            MappingAvailability::Complete => {
                if m.entries.len() == 0 && m.rejected_entries == 0 {
                    Some(BrokerCapabilityOutcome::NoScsiGeneric)
                } else if m.rejected_entries != 0 || m.entries.len() != 1 {
                    Some(BrokerCapabilityOutcome::AmbiguousScsiGeneric)
                } else {
                    None
                }
            },
        },
    }
}

/// The standard INQUIRY names a direct-access device and the Supported VPD
/// Pages page lists the ATA Information page.
pub open spec fn sat_advertisement_of(inquiry: Seq<u8>, supported: Seq<u8>) -> Result<
    (),
    BrokerCapabilityOutcome,
> {
    match standard_inquiry_of(inquiry) {
        Err(_) => Err(BrokerCapabilityOutcome::MalformedEvidence),
        Ok(i) => if i.peripheral_device_type != 0 {
            Err(BrokerCapabilityOutcome::NativeScsiOrAtapi)
        } else {
            match vpd_frame(supported, vpd_code(VpdPage::Supported)) {
                Err(_) => Err(BrokerCapabilityOutcome::MalformedEvidence),
                Ok(pages) => if pages.contains(vpd_code(VpdPage::AtaInformation)) {
                    Ok(())
                } else {
                    Err(BrokerCapabilityOutcome::NativeScsiOrAtapi)
                },
            }
        },
    }
}

fn contains_page(pages: &Vec<u8>, page: u8) -> (r: bool)
    ensures
        r == pages@.contains(page),
{
    let mut i: usize = 0;
    while i < pages.len()
        invariant
            i <= pages@.len(),
            forall|k: int| 0 <= k < i ==> pages@[k] != page,
        decreases pages@.len() - i,
    {
        if pages[i] == page {
            return true;
        }
        i = i + 1;
    }
    false
}

pub fn validate_sat_advertisement(inquiry_data: &[u8], supported_data: &[u8]) -> (r: Result<
    (),
    BrokerCapabilityOutcome,
>)
    ensures
        r == sat_advertisement_of(inquiry_data@, supported_data@),
{
    let inquiry = match parse_standard_inquiry(inquiry_data) {
        Ok(inquiry) => inquiry,
        Err(_) => {
            return Err(BrokerCapabilityOutcome::MalformedEvidence);
        },
    };
    if inquiry.peripheral_device_type != 0 {
        return Err(BrokerCapabilityOutcome::NativeScsiOrAtapi);
    }
    let supported = match parse_supported_vpd_pages(supported_data) {
        Ok(pages) => pages,
        Err(_) => {
            return Err(BrokerCapabilityOutcome::MalformedEvidence);
        },
    };
    if !contains_page(&supported, VpdPage::AtaInformation.code()) {
        return Err(BrokerCapabilityOutcome::NativeScsiOrAtapi);
    }
    Ok(())
}

/// SAT evidence: the advertisement holds and the ATA Information page shows
/// a direct-access device identified by IDENTIFY DEVICE (not an ATAPI
/// device identified by IDENTIFY PACKET DEVICE).
pub open spec fn sat_evidence_of(inquiry: Seq<u8>, supported: Seq<u8>, ata_information: Seq<u8>) -> Result<
    (),
    BrokerCapabilityOutcome,
> {
    match sat_advertisement_of(inquiry, supported) {
        Err(e) => Err(e),
        Ok(_) => match ata_information_prefix_of(ata_information) {
            Err(_) => Err(BrokerCapabilityOutcome::MalformedEvidence),
            Ok(p) => if p.peripheral_device_type != 0 || p.command_code
                != ATA_IDENTIFY_DEVICE_COMMAND {
                Err(BrokerCapabilityOutcome::NativeScsiOrAtapi)
            } else {
                Ok(())
            },
        },
    }
}

pub fn validate_sat_evidence(
    inquiry_data: &[u8],
    supported_data: &[u8],
    ata_information_data: &[u8],
) -> (r: Result<(), BrokerCapabilityOutcome>)
    ensures
        r == sat_evidence_of(inquiry_data@, supported_data@, ata_information_data@),
{
    validate_sat_advertisement(inquiry_data, supported_data)?;
    let ata_information = match parse_ata_information_vpd_prefix(ata_information_data) {
        Ok(prefix) => prefix,
        Err(_) => {
            return Err(BrokerCapabilityOutcome::MalformedEvidence);
        },
    };
    if ata_information.peripheral_device_type != 0 || ata_information.command_code
        != ATA_IDENTIFY_DEVICE_COMMAND {
        return Err(BrokerCapabilityOutcome::NativeScsiOrAtapi);
    }
    Ok(())
}

/// The grant an IDENTIFY summary supports. SMART follows the IDENTIFY bit;
/// thresholds and the GPL directory are granted only when supported and
/// the probe of the command (run only in that case) returned its response.
pub fn capabilities_from_identify(
    identify: AtaIdentifySummary,
    thresholds_probe_succeeded: bool,
    gpl_probe_succeeded: bool,
) -> (g: AtaCapabilityGrant)
    ensures
        g.smart == identify.smart_supported,
        g.smart_thresholds == (identify.smart_supported && thresholds_probe_succeeded),
        g.gpl == (identify.general_purpose_logging_supported && gpl_probe_succeeded),
{
    AtaCapabilityGrant {
        smart: identify.smart_supported,
        smart_thresholds: identify.smart_supported && thresholds_probe_succeeded,
        gpl: identify.general_purpose_logging_supported && gpl_probe_succeeded,
    }
}

/// The data of a probe command, or `TransportUnavailable` unless host,
/// driver and SCSI status all report success.
pub fn scsi_probe_data(completion: SgIoCompletion) -> (r: Result<Vec<u8>, BrokerCapabilityOutcome>)
    ensures
        (completion.host_status != 0 || completion.driver_status != 0 || completion.scsi_status
            != 0) ==> r == Err::<Vec<u8>, BrokerCapabilityOutcome>(
            BrokerCapabilityOutcome::TransportUnavailable,
        ),
        (completion.host_status == 0 && completion.driver_status == 0 && completion.scsi_status
            == 0) ==> (r matches Ok(d) && d@ == completion.data@),
{
    if completion.host_status != 0 || completion.driver_status != 0 || completion.scsi_status != 0 {
        return Err(BrokerCapabilityOutcome::TransportUnavailable);
    }
    Ok(completion.data)
}

/// The kinds of I/O failure that the capability report tells apart.
#[derive(Debug, Clone, Copy, PartialEq, Eq, Structural)]
pub enum IoFailureClass {
    PermissionDenied,
    InvalidData,
    NotFound,
    Other,
}

/// Which of the told-apart classes the kind of an I/O error falls in: the
/// kind is what `std::io::Error::kind` reports for the error, a function of
/// the error value alone.
pub uninterp spec fn io_class_of(error: std::io::Error) -> IoFailureClass;

/// Reads the kind of a `std::io::Error` (`std::io::Error::kind`) and tells
/// the three kinds the report distinguishes from all others. Which kind an
/// error has is only named.
#[verifier::external_body]
pub(crate) fn io_failure_class(error: &std::io::Error) -> (r: IoFailureClass)
    ensures
        r == io_class_of(*error),
{
    match error.kind() {
        std::io::ErrorKind::PermissionDenied => IoFailureClass::PermissionDenied,
        std::io::ErrorKind::InvalidData => IoFailureClass::InvalidData,
        std::io::ErrorKind::NotFound => IoFailureClass::NotFound,
        _ => IoFailureClass::Other,
    }
}

pub open spec fn outcome_of_class(class: IoFailureClass) -> BrokerCapabilityOutcome {
    match class {
        IoFailureClass::PermissionDenied => BrokerCapabilityOutcome::PermissionDenied,
        IoFailureClass::InvalidData => BrokerCapabilityOutcome::StaleOrInvalidDevice,
        IoFailureClass::NotFound => BrokerCapabilityOutcome::DeviceUnavailable,
        IoFailureClass::Other => BrokerCapabilityOutcome::TransportUnavailable,
    }
}

pub fn outcome_for_class(class: IoFailureClass) -> (r: BrokerCapabilityOutcome)
    ensures
        r == outcome_of_class(class),
{
    match class {
        IoFailureClass::PermissionDenied => BrokerCapabilityOutcome::PermissionDenied,
        IoFailureClass::InvalidData => BrokerCapabilityOutcome::StaleOrInvalidDevice,
        IoFailureClass::NotFound => BrokerCapabilityOutcome::DeviceUnavailable,
        IoFailureClass::Other => BrokerCapabilityOutcome::TransportUnavailable,
    }
}

/// Permission and stale-device failures keep their class; a missing device
/// is unavailable; anything else is a transport failure.
pub fn classify_io_error(error: &std::io::Error) -> (r: BrokerCapabilityOutcome)
    ensures
        r == outcome_of_class(io_class_of(*error)),
{
    let class = io_failure_class(error);
    outcome_for_class(class)
}

/// The outcome of an ATA probe that failed: malformed data is malformed
/// evidence, an I/O failure keeps its class, anything else is a transport
/// failure.
pub fn ata_probe_failure(error: &BrokerAtaExecutionError) -> (r: BrokerCapabilityOutcome)
    ensures
        error is Malformed ==> r == BrokerCapabilityOutcome::MalformedEvidence,
        error matches BrokerAtaExecutionError::Io(e) ==> r == outcome_of_class(io_class_of(*e)),
        !(error is Malformed) && !(error is Io) ==> r == BrokerCapabilityOutcome::TransportUnavailable,
{
    match error {
        BrokerAtaExecutionError::Malformed(_) => BrokerCapabilityOutcome::MalformedEvidence,
        BrokerAtaExecutionError::Io(e) => classify_io_error(e),
        _ => BrokerCapabilityOutcome::TransportUnavailable,
    }
}

/// Records how probing candidate `node` under `generation` ended: a probe
/// that proved ATA capabilities adds one ATA grant for the node and the
/// outcome `GrantedAta`; any other end adds only its outcome. Each probed
/// candidate adds exactly one outcome.
pub fn record_probe(
    report: &mut BrokerCapabilityReport,
    node: &StorageNode,
    generation: BrokerGeneration,
    result: Result<AtaCapabilityGrant, BrokerCapabilityOutcome>,
)
    ensures
        match result {
            Ok(capabilities) => {
                &&& final(report).grants@.len() == old(report).grants@.len() + 1
                &&& final(report).grants@.drop_last() == old(report).grants@
                &&& final(report).grants@.last().node_id@ == node.id@
                &&& final(report).grants@.last().generation == generation
                &&& final(report).grants@.last().backend == GrantedBackend::AtaSat
                &&& final(report).grants@.last().ata == capabilities
                &&& final(report).outcomes@ == old(report).outcomes@.push(BrokerCapabilityOutcome::GrantedAta)
            },
            Err(outcome) => {
                &&& final(report).grants@ == old(report).grants@
                &&& final(report).outcomes@ == old(report).outcomes@.push(outcome)
            },
        },
{
    match result {
        Ok(capabilities) => {
            report.grants.push(
                BrokerDeviceGrant {
                    node_id: node.id.clone(),
                    generation,
                    backend: GrantedBackend::AtaSat,
                    ata: capabilities,
                },
            );
            report.outcomes.push(BrokerCapabilityOutcome::GrantedAta);
        },
        Err(outcome) => {
            report.outcomes.push(outcome);
        },
    }
}

} // verus!
