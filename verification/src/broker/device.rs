//! Device-side checks of the broker: which authorized names may be opened,
//! what an opened descriptor must prove, the fixed parameters of one ATA
//! execution, and how an SG_IO completion becomes a typed response.
//!
//! Opening files and issuing the ioctl are left to the caller.
use vstd::prelude::*;

use crate::ata::{
    ata_return_descriptor_of,
    ata_word,
    capacity_of,
    command_data_len,
    gpl_supported,
    log_pages_upto,
    medium_from_rate,
    parse_ata_return_descriptor,
    parse_identify_device,
    parse_log_directory,
    parse_smart_attributes,
    parse_smart_thresholds,
    sectors_of,
    smart_attributes_upto,
    smart_page_error,
    smart_return_status,
    smart_status_of,
    smart_thresholds_upto,
    AtaParseError,
    AtaReadCommand,
};
use crate::scsi::sg_uapi::SgIoCompletion;
use crate::text::has_prefix;
use crate::timing::NANOS_PER_MILLI;

use super::{
    execution_denial,
    AtaBrokerOperation,
    AtaIdentifySummary,
    BrokerAtaResponse,
    BrokerGeneration,
    OpenedDeviceEvidence,
    VerifiedExecutionPlan,
};

verus! {

/// `std::io::Error`, carried through unchanged.
#[verifier::external_type_specification]
#[verifier::external_body]
pub struct ExIoError(std::io::Error);

pub const ATA_SENSE_LEN: usize = 64;

/// ATA status bits that mean the command failed: ERR, DF and BSY.
pub const ATA_STATUS_ERROR_MASK: u8 = 0xa1;

pub const MAX_CONCURRENT_ATA_COMMANDS: usize = 4;

#[derive(Debug)]
pub enum BrokerAtaExecutionError {
    Io(std::io::Error),
    InvalidPlan,
    TransportStatus { scsi: u8, host: u16, driver: u16 },
    AtaStatus { status: u8, error: u8 },
    Malformed(AtaParseError),
    WorkerClosed,
    WorkerJoin,
}

/// The ATA command that carries a broker operation.
pub open spec fn operation_command(operation: AtaBrokerOperation) -> AtaReadCommand {
    match operation {
        AtaBrokerOperation::IdentifyDevice => AtaReadCommand::IdentifyDevice,
        AtaBrokerOperation::SmartReadData => AtaReadCommand::SmartReadData,
        AtaBrokerOperation::SmartReadThresholds => AtaReadCommand::SmartReadThresholds,
        AtaBrokerOperation::SmartReturnStatus => AtaReadCommand::SmartReturnStatus,
        AtaBrokerOperation::ReadGplDirectory => AtaReadCommand::ReadGplDirectory,
    }
}

/// The fixed parameters of one SG_IO execution.
#[derive(Debug, Clone, Copy, PartialEq, Eq, Structural)]
pub struct AtaExecution {
    pub command: AtaReadCommand,
    pub data_len: usize,
    pub sense_len: usize,
    pub timeout_ms: u32,
}

/// What a verified plan is executed with: the plan's response limit must be
/// exactly the command's transfer length, and its timeout a positive whole
/// number of milliseconds that fits the SG_IO header.
pub fn execution_parameters(plan: &VerifiedExecutionPlan) -> (r: Result<
    AtaExecution,
    BrokerAtaExecutionError,
>)
    ensures
        ({
            let command = operation_command(plan.operation_of());
            let millis = plan.timeout_of().nanos / NANOS_PER_MILLI;
            if command_data_len(command) != plan.response_limit_of() || millis == 0 || millis
                > u32::MAX {
                r matches Err(BrokerAtaExecutionError::InvalidPlan)
            } else {
                r matches Ok(e) && e == (AtaExecution {
                    command,
                    data_len: command_data_len(command),
                    sense_len: ATA_SENSE_LEN,
                    timeout_ms: millis as u32,
                })
            }
        }),
{
    let command = match plan.operation() {
        AtaBrokerOperation::IdentifyDevice => AtaReadCommand::IdentifyDevice,
        AtaBrokerOperation::SmartReadData => AtaReadCommand::SmartReadData,
        AtaBrokerOperation::SmartReadThresholds => AtaReadCommand::SmartReadThresholds,
        AtaBrokerOperation::SmartReturnStatus => AtaReadCommand::SmartReturnStatus,
        AtaBrokerOperation::ReadGplDirectory => AtaReadCommand::ReadGplDirectory,
    };
    let data_len = command.data_len();
    if data_len != plan.response_limit {
        return Err(BrokerAtaExecutionError::InvalidPlan);
    }
    let millis = plan.timeout.as_millis();
    if millis == 0 || millis > 0xffff_ffff {
        return Err(BrokerAtaExecutionError::InvalidPlan);
    }
    Ok(AtaExecution { command, data_len, sense_len: ATA_SENSE_LEN, timeout_ms: millis as u32 })
}

/// The IDENTIFY facts that cross the broker boundary.
pub open spec fn identify_summary_of(data: Seq<u8>) -> AtaIdentifySummary {
    AtaIdentifySummary {
        capacity_bytes: capacity_of(sectors_of(data)),
        medium: medium_from_rate(ata_word(data, 217)),
        smart_supported: ata_word(data, 82) & 1u16 != 0,
        general_purpose_logging_supported: gpl_supported(data),
    }
}

/// The transport reported success: no host or driver error, and a GOOD or
/// CHECK CONDITION status (the latter carries the ATA registers).
pub open spec fn transport_ok(c: SgIoCompletion) -> bool {
    c.host_status == 0 && c.driver_status == 0 && (c.scsi_status == 0x00 || c.scsi_status == 0x02)
}

/// The typed response a successful command yields from its data and
/// registers, as the per-command parsers define it.
pub open spec fn response_matches(
    command: AtaReadCommand,
    data: Seq<u8>,
    status: crate::ata::SmartStatus,
    r: Result<BrokerAtaResponse, BrokerAtaExecutionError>,
) -> bool {
    match command {
        AtaReadCommand::IdentifyDevice => if data.len() != 512 {
            r matches Err(BrokerAtaExecutionError::Malformed(e)) && e == (AtaParseError::WrongLength {
                expected: 512,
                actual: data.len() as usize,
            })
        } else {
            r matches Ok(BrokerAtaResponse::Identify(s)) && s == identify_summary_of(data)
        },
        AtaReadCommand::SmartReadData => match smart_page_error(data) {
            Some(e) => r matches Err(BrokerAtaExecutionError::Malformed(e2)) && e2 == e,
            None => r matches Ok(BrokerAtaResponse::SmartData(v)) && v@ == smart_attributes_upto(
                data,
                30,
            ),
        },
        AtaReadCommand::SmartReadThresholds => match smart_page_error(data) {
            Some(e) => r matches Err(BrokerAtaExecutionError::Malformed(e2)) && e2 == e,
            None => r matches Ok(BrokerAtaResponse::SmartThresholds(v)) && v@
                == smart_thresholds_upto(data, 30),
        },
        AtaReadCommand::SmartReturnStatus => r matches Ok(BrokerAtaResponse::SmartStatus(s)) && s
            == status,
        AtaReadCommand::ReadGplDirectory => if data.len() != 512 {
            r matches Err(BrokerAtaExecutionError::Malformed(e)) && e == (AtaParseError::WrongLength {
                expected: 512,
                actual: data.len() as usize,
            })
        } else {
            r matches Ok(BrokerAtaResponse::GplDirectory(d)) && d.version == ata_word(data, 0)
                && d.supported_pages@ == log_pages_upto(data, 256)
        },
    }
}

/// Turns an SG_IO completion into a typed response: the transport must have
/// succeeded, the sense data must carry an ATA Return descriptor, the ATA
/// status must show no error, and the data must parse for the command.
pub fn interpret_ata_completion(command: AtaReadCommand, completion: SgIoCompletion) -> (r: Result<
    BrokerAtaResponse,
    BrokerAtaExecutionError,
>)
    ensures
        !transport_ok(completion) ==> (r matches Err(
            BrokerAtaExecutionError::TransportStatus { scsi, host, driver },
        ) && scsi == completion.scsi_status && host == completion.host_status && driver
            == completion.driver_status),
        transport_ok(completion) ==> match ata_return_descriptor_of(completion.sense@) {
            Err(e) => r matches Err(BrokerAtaExecutionError::Malformed(e2)) && e2 == e,
            Ok(registers) => if registers.status & ATA_STATUS_ERROR_MASK != 0 {
                r matches Err(BrokerAtaExecutionError::AtaStatus { status, error }) && status
                    == registers.status && error == registers.error
            } else {
                response_matches(command, completion.data@, smart_status_of(registers), r)
            },
        },
{
    if completion.host_status != 0 || completion.driver_status != 0 || !(completion.scsi_status
        == 0x00 || completion.scsi_status == 0x02) {
        return Err(
            BrokerAtaExecutionError::TransportStatus {
                scsi: completion.scsi_status,
                host: completion.host_status,
                driver: completion.driver_status,
            },
        );
    }
    let registers = match parse_ata_return_descriptor(completion.sense.as_slice()) {
        Ok(registers) => registers,
        Err(e) => {
            return Err(BrokerAtaExecutionError::Malformed(e));
        },
    };
    if registers.status & ATA_STATUS_ERROR_MASK != 0 {
        return Err(
            BrokerAtaExecutionError::AtaStatus { status: registers.status, error: registers.error },
        );
    }
    let data = completion.data.as_slice();
    match command {
        AtaReadCommand::IdentifyDevice => match parse_identify_device(data) {
            Ok(identify) => Ok(
                BrokerAtaResponse::Identify(
                    AtaIdentifySummary {
                        capacity_bytes: identify.capacity_bytes,
                        medium: identify.medium,
                        smart_supported: identify.smart_supported,
                        general_purpose_logging_supported: identify.general_purpose_logging_supported,
                    },
                ),
            ),
            Err(e) => Err(BrokerAtaExecutionError::Malformed(e)),
        },
        AtaReadCommand::SmartReadData => match parse_smart_attributes(data) {
            Ok(attributes) => Ok(BrokerAtaResponse::SmartData(attributes)),
            Err(e) => Err(BrokerAtaExecutionError::Malformed(e)),
        },
        AtaReadCommand::SmartReadThresholds => match parse_smart_thresholds(data) {
            Ok(thresholds) => Ok(BrokerAtaResponse::SmartThresholds(thresholds)),
            Err(e) => Err(BrokerAtaExecutionError::Malformed(e)),
        },
        AtaReadCommand::SmartReturnStatus => Ok(
            BrokerAtaResponse::SmartStatus(smart_return_status(registers)),
        ),
        AtaReadCommand::ReadGplDirectory => match parse_log_directory(data) {
            Ok(directory) => Ok(BrokerAtaResponse::GplDirectory(directory)),
            Err(e) => Err(BrokerAtaExecutionError::Malformed(e)),
        },
    }
}

/// A device name that may be opened below `/dev`: ASCII letters, digits
/// and `_-.`.
pub open spec fn open_name_char(c: char) -> bool {
    ('0' <= c <= '9') || ('a' <= c <= 'z') || ('A' <= c <= 'Z') || c == '_' || c == '-' || c == '.'
}

pub open spec fn block_node_prefix() -> Seq<char> {
    seq!['b', 'l', 'o', 'c', 'k', ':']
}

/// The device name behind a canonical `block:<name>` node id, when it is
/// safe to open.
pub open spec fn device_name_of(node_id: Seq<char>) -> Option<Seq<char>> {
    if !has_prefix(node_id, block_node_prefix()) {
        None
    } else {
        let name = node_id.subrange(6, node_id.len() as int);
        if name.len() > 0 && forall|i: int| 0 <= i < name.len() ==> open_name_char(#[trigger] name[i]) {
            Some(name)
        } else {
            None
        }
    }
}

/// The name to open for an authorized node id, or `None` when the id is
/// not a canonical block node with a safe name.
pub fn authorized_device_name(node_id: &str) -> (r: Option<String>)
    ensures
        match device_name_of(node_id@) {
            None => r is None,
            Some(name) => r matches Some(s) && s@ == name,
        },
{
    let n = node_id.unicode_len();
    if n < 6 || node_id.get_char(0) != 'b' || node_id.get_char(1) != 'l' || node_id.get_char(2)
        != 'o' || node_id.get_char(3) != 'c' || node_id.get_char(4) != 'k' || node_id.get_char(5)
        != ':' {
        proof {
            if has_prefix(node_id@, block_node_prefix()) {
                assert(node_id@.subrange(0, 6) == block_node_prefix());
                assert(node_id@[0] == node_id@.subrange(0, 6)[0]);
                assert(node_id@[1] == node_id@.subrange(0, 6)[1]);
                assert(node_id@[2] == node_id@.subrange(0, 6)[2]);
                assert(node_id@[3] == node_id@.subrange(0, 6)[3]);
                assert(node_id@[4] == node_id@.subrange(0, 6)[4]);
                assert(node_id@[5] == node_id@.subrange(0, 6)[5]);
            }
        }
        return None;
    }
    assert(node_id@.subrange(0, 6) =~= block_node_prefix());
    if n == 6 {
        return None;
    }
    let mut i: usize = 6;
    while i < n
        invariant
            n == node_id@.len(),
            6 <= i <= n,
            forall|k: int| 6 <= k < i ==> open_name_char(#[trigger] node_id@[k]),
        decreases n - i,
    {
        let c = node_id.get_char(i);
        if !(('0' <= c && c <= '9') || ('a' <= c && c <= 'z') || ('A' <= c && c <= 'Z') || c == '_'
            || c == '-' || c == '.') {
            proof {
                let name = node_id@.subrange(6, n as int);
                assert(!open_name_char(name[i - 6]));
            }
            return None;
        }
        i = i + 1;
    }
    let name = node_id.substring_char(6, n);
    proof {
        let view = node_id@.subrange(6, n as int);
        assert forall|k: int| 0 <= k < view.len() implies open_name_char(#[trigger] view[k]) by {
            assert(view[k] == node_id@[k + 6]);
        }
    }
    Some(String::from_str(name))
}

/// Whether a descriptor opened for a capability probe is the whole device
/// of the expected generation, opened read-only.
pub fn probe_evidence_accepted(evidence: OpenedDeviceEvidence, generation: BrokerGeneration) -> (r:
    bool)
    ensures
        r == (execution_denial(generation, evidence) is None),
{
    evidence.is_block_device && !evidence.is_partition && evidence.opened_read_only
        && evidence.generation == generation
}

} // verus!
