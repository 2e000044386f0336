//! Read-only SCSI protocol boundary: the audited command subset, the routing
//! decision between native SCSI and SAT, completion validation, and bounded
//! parsers for INQUIRY, VPD pages, LOG SENSE pages and sense data.
//!
//! Nothing here opens a device or accepts a raw CDB.
use vstd::prelude::*;

use crate::ata::be16;

pub mod mapping;
pub mod sg_uapi;
pub mod worker;

use self::mapping::{MappingAvailability, ScsiGenericMapping};

verus! {

pub const INQUIRY: u8 = 0x12;
pub const LOG_SENSE_10: u8 = 0x4d;
pub const TEST_UNIT_READY: u8 = 0x00;

#[derive(Debug, Clone, Copy, PartialEq, Eq, Structural)]
pub enum DataDirection {
    NoTransfer,
    FromDevice,
}

#[derive(Debug, Clone, Copy, PartialEq, Eq, Structural)]
pub enum VpdPage {
    Supported,
    UnitSerial,
    DeviceIdentification,
    AtaInformation,
    BlockDeviceCharacteristics,
}

/// The page code of a VPD page.
pub open spec fn vpd_code(page: VpdPage) -> u8 {
    match page {
        VpdPage::Supported => 0x00,
        VpdPage::UnitSerial => 0x80,
        VpdPage::DeviceIdentification => 0x83,
        VpdPage::AtaInformation => 0x89,
        VpdPage::BlockDeviceCharacteristics => 0xb1,
    }
}

impl VpdPage {
    pub fn code(self) -> (c: u8)
        ensures
            c == vpd_code(self),
    {
        match self {
            VpdPage::Supported => 0x00,
            VpdPage::UnitSerial => 0x80,
            VpdPage::DeviceIdentification => 0x83,
            VpdPage::AtaInformation => 0x89,
            VpdPage::BlockDeviceCharacteristics => 0xb1,
        }
    }
}

#[derive(Debug, Clone, Copy, PartialEq, Eq, Structural)]
pub enum LogPage {
    Supported,
    WriteErrors,
    ReadErrors,
    Temperature,
    NonMediumErrors,
    InformationalExceptions,
}

/// The page code of a log page.
pub open spec fn log_code(page: LogPage) -> u8 {
    match page {
        LogPage::Supported => 0x00,
        LogPage::WriteErrors => 0x02,
        LogPage::ReadErrors => 0x03,
        LogPage::Temperature => 0x0d,
        LogPage::NonMediumErrors => 0x06,
        LogPage::InformationalExceptions => 0x2f,
    }
}

impl LogPage {
    pub fn code(self) -> (c: u8)
        ensures
            c == log_code(self),
    {
        match self {
            LogPage::Supported => 0x00,
            LogPage::WriteErrors => 0x02,
            LogPage::ReadErrors => 0x03,
            LogPage::Temperature => 0x0d,
            LogPage::NonMediumErrors => 0x06,
            LogPage::InformationalExceptions => 0x2f,
        }
    }
}

#[derive(Debug, Clone, Copy, PartialEq, Eq, Structural)]
pub enum ReadOnlyCommand {
    TestUnitReady,
    Inquiry { allocation_len: u8 },
    InquiryVpd { page: VpdPage, allocation_len: u8 },
    LogSense { page: LogPage, allocation_len: u16 },
}

pub open spec fn command_direction(command: ReadOnlyCommand) -> DataDirection {
    match command {
        ReadOnlyCommand::TestUnitReady => DataDirection::NoTransfer,
        _ => DataDirection::FromDevice,
    }
}

/// The CDB bytes of a command.
pub open spec fn command_bytes(command: ReadOnlyCommand) -> Seq<u8> {
    match command {
        ReadOnlyCommand::TestUnitReady => seq![TEST_UNIT_READY, 0u8, 0u8, 0u8, 0u8, 0u8],
        ReadOnlyCommand::Inquiry { allocation_len } => seq![
            INQUIRY,
            0u8,
            0u8,
            0u8,
            allocation_len,
            0u8,
        ],
        ReadOnlyCommand::InquiryVpd { page, allocation_len } => seq![
            INQUIRY,
            1u8,
            vpd_code(page),
            0u8,
            allocation_len,
            0u8,
        ],
        ReadOnlyCommand::LogSense { page, allocation_len } => seq![
            LOG_SENSE_10,
            0u8,
            log_code(page),
            0u8,
            0u8,
            0u8,
            0u8,
            (allocation_len / 256) as u8,
            (allocation_len % 256) as u8,
            0u8,
        ],
    }
}

/// Bytes the device may return for a command.
pub open spec fn command_allocation_len(command: ReadOnlyCommand) -> usize {
    match command {
        ReadOnlyCommand::TestUnitReady => 0,
        ReadOnlyCommand::Inquiry { allocation_len } => allocation_len as usize,
        ReadOnlyCommand::InquiryVpd { allocation_len, .. } => allocation_len as usize,
        ReadOnlyCommand::LogSense { allocation_len, .. } => allocation_len as usize,
    }
}

impl ReadOnlyCommand {
    /// No command of the typed surface moves data towards the device.
    pub fn direction(self) -> (d: DataDirection)
        ensures
            d == command_direction(self),
    {
        match self {
            ReadOnlyCommand::TestUnitReady => DataDirection::NoTransfer,
            _ => DataDirection::FromDevice,
        }
    }

    pub fn cdb(self) -> (cdb: Vec<u8>)
        ensures
            cdb@ == command_bytes(self),
    {
        match self {
            ReadOnlyCommand::TestUnitReady => vec![TEST_UNIT_READY, 0, 0, 0, 0, 0],
            ReadOnlyCommand::Inquiry { allocation_len } => vec![INQUIRY, 0, 0, 0, allocation_len, 0],
            ReadOnlyCommand::InquiryVpd { page, allocation_len } => vec![
                INQUIRY,
                1,
                page.code(),
                0,
                allocation_len,
                0,
            ],
            ReadOnlyCommand::LogSense { page, allocation_len } => {
                let hi = (allocation_len / 256) as u8;
                let lo = (allocation_len % 256) as u8;
                vec![LOG_SENSE_10, 0, page.code(), 0, 0, 0, 0, hi, lo, 0]
            },
        }
    }

    /// The allocation length carried by the CDB.
    pub fn allocation_len(self) -> (n: usize)
        ensures
            n == command_allocation_len(self),
    {
        match self {
            ReadOnlyCommand::TestUnitReady => 0,
            ReadOnlyCommand::Inquiry { allocation_len } => allocation_len as usize,
            ReadOnlyCommand::InquiryVpd { allocation_len, .. } => allocation_len as usize,
            ReadOnlyCommand::LogSense { allocation_len, .. } => allocation_len as usize,
        }
    }
}

#[derive(Debug, Clone, Copy, PartialEq, Eq, Structural)]
pub enum ProposedDirection {
    NoTransfer,
    FromDevice,
    ToDevice,
}

#[derive(Debug, Clone, Copy, PartialEq, Eq, Structural)]
pub enum CommandPolicyRejection {
    RawCdb,
    DataOut,
    VendorCommand,
}

pub open spec fn untyped_rejection(opcode: u8, direction: ProposedDirection) -> CommandPolicyRejection {
    if direction == ProposedDirection::ToDevice {
        CommandPolicyRejection::DataOut
    } else if opcode >= 0xc0 {
        CommandPolicyRejection::VendorCommand
    } else {
        CommandPolicyRejection::RawCdb
    }
}

/// Guard for requests that did not come from the typed command API: every
/// such request is refused, with the reason that names its worst trait.
pub fn reject_untyped_command(opcode: u8, direction: ProposedDirection) -> (r: CommandPolicyRejection)
    ensures
        r == untyped_rejection(opcode, direction),
{
    if direction == ProposedDirection::ToDevice {
        CommandPolicyRejection::DataOut
    } else if opcode >= 0xc0 {
        CommandPolicyRejection::VendorCommand
    } else {
        CommandPolicyRejection::RawCdb
    }
}

fn contains_byte(s: &[u8], b: u8) -> (r: bool)
    ensures
        r == s@.contains(b),
{
    let mut i: usize = 0;
    while i < s.len()
        invariant
            i <= s@.len(),
            forall|k: int| 0 <= k < i ==> s@[k] != b,
        decreases s@.len() - i,
    {
        if s[i] == b {
            return true;
        }
        i = i + 1;
    }
    false
}

/// A VPD INQUIRY is only built for a page the device advertised.
pub fn discovered_vpd_command(page: VpdPage, supported_pages: &[u8], allocation_len: u8) -> (r: Option<
    ReadOnlyCommand,
>)
    ensures
        r == (if supported_pages@.contains(vpd_code(page)) {
            Some(ReadOnlyCommand::InquiryVpd { page, allocation_len })
        } else {
            None
        }),
{
    if contains_byte(supported_pages, page.code()) {
        Some(ReadOnlyCommand::InquiryVpd { page, allocation_len })
    } else {
        None
    }
}

/// A LOG SENSE is only built for a page the device advertised.
pub fn discovered_log_command(page: LogPage, supported_pages: &[u8], allocation_len: u16) -> (r: Option<
    ReadOnlyCommand,
>)
    ensures
        r == (if supported_pages@.contains(log_code(page)) {
            Some(ReadOnlyCommand::LogSense { page, allocation_len })
        } else {
            None
        }),
{
    if contains_byte(supported_pages, page.code()) {
        Some(ReadOnlyCommand::LogSense { page, allocation_len })
    } else {
        None
    }
}


#[derive(Debug, Clone, Copy, PartialEq, Eq, Structural)]
pub enum BackendRoute {
    NativeScsi,
    Sat,
    ControllerHidden,
    AmbiguousScsiMapping,
    UnsupportedPeripheral(u8),
    NoScsiGeneric,
    InsufficientEvidence,
}

#[derive(Debug, Clone, Copy, PartialEq, Eq, Structural)]
pub struct StandardInquiry {
    pub peripheral_device_type: u8,
    pub removable: bool,
    pub version: u8,
}

#[derive(Debug, Clone, PartialEq, Eq)]
pub struct RoutingEvidence {
    pub scsi_generic_count: usize,
    pub inquiry: Option<StandardInquiry>,
    pub supported_vpd_pages: Vec<u8>,
    pub transport_available: bool,
    pub controller_logical_volume: bool,
}

/// Which backend may serve a device, from what was discovered about it.
pub open spec fn route_of(
    count: usize,
    inquiry: Option<StandardInquiry>,
    vpd_pages: Seq<u8>,
    transport_available: bool,
    controller_logical_volume: bool,
) -> BackendRoute {
    if controller_logical_volume && !transport_available {
        BackendRoute::ControllerHidden
    } else if count == 0 {
        BackendRoute::NoScsiGeneric
    } else if count > 1 {
        BackendRoute::AmbiguousScsiMapping
    } else if !transport_available {
        BackendRoute::ControllerHidden
    } else {
        match inquiry {
            None => BackendRoute::InsufficientEvidence,
            Some(inquiry) => if inquiry.peripheral_device_type != 0 {
                BackendRoute::UnsupportedPeripheral(inquiry.peripheral_device_type)
            } else if vpd_pages.contains(vpd_code(VpdPage::AtaInformation)) {
                BackendRoute::Sat
            } else {
                BackendRoute::NativeScsi
            },
        }
    }
}

pub fn route_backend(evidence: &RoutingEvidence) -> (r: BackendRoute)
    ensures
        r == route_of(
            evidence.scsi_generic_count,
            evidence.inquiry,
            evidence.supported_vpd_pages@,
            evidence.transport_available,
            evidence.controller_logical_volume,
        ),
{
    if evidence.controller_logical_volume && !evidence.transport_available {
        return BackendRoute::ControllerHidden;
    }
    if evidence.scsi_generic_count == 0 {
        return BackendRoute::NoScsiGeneric;
    }
    if evidence.scsi_generic_count > 1 {
        return BackendRoute::AmbiguousScsiMapping;
    }
    if !evidence.transport_available {
        return BackendRoute::ControllerHidden;
    }
    match evidence.inquiry {
        None => BackendRoute::InsufficientEvidence,
        Some(inquiry) => {
            if inquiry.peripheral_device_type != 0 {
                BackendRoute::UnsupportedPeripheral(inquiry.peripheral_device_type)
            } else if contains_byte(
                evidence.supported_vpd_pages.as_slice(),
                VpdPage::AtaInformation.code(),
            ) {
                BackendRoute::Sat
            } else {
                BackendRoute::NativeScsi
            }
        },
    }
}

/// Routing from a sysfs mapping: an incomplete or partially rejected
/// mapping never routes to a device.
pub open spec fn mapping_route_of(
    availability: MappingAvailability,
    entry_count: usize,
    rejected_entries: usize,
    inquiry: Option<StandardInquiry>,
    vpd_pages: Seq<u8>,
    controller_logical_volume: bool,
) -> BackendRoute {
    match availability {
        MappingAvailability::DeviceGone | MappingAvailability::Unreadable => {
            BackendRoute::InsufficientEvidence
        },
        MappingAvailability::NoScsiGenericInterface => if controller_logical_volume {
            BackendRoute::ControllerHidden
        } else {
            BackendRoute::NoScsiGeneric
        },
        MappingAvailability::Complete => if rejected_entries > 0 {
            BackendRoute::AmbiguousScsiMapping
        } else {
            route_of(entry_count, inquiry, vpd_pages, true, controller_logical_volume)
        },
    }
}

pub fn route_discovered_mapping(
    mapping: &ScsiGenericMapping,
    inquiry: Option<StandardInquiry>,
    supported_vpd_pages: Vec<u8>,
    controller_logical_volume: bool,
) -> (r: BackendRoute)
    ensures
        r == mapping_route_of(
            mapping.availability,
            mapping.entries@.len() as usize,
            mapping.rejected_entries,
            inquiry,
            supported_vpd_pages@,
            controller_logical_volume,
        ),
{
    match mapping.availability {
        MappingAvailability::DeviceGone | MappingAvailability::Unreadable => {
            return BackendRoute::InsufficientEvidence;
        },
        MappingAvailability::NoScsiGenericInterface => {
            if controller_logical_volume {
                return BackendRoute::ControllerHidden;
            }
            return BackendRoute::NoScsiGeneric;
        },
        MappingAvailability::Complete => {},
    }
    if mapping.rejected_entries > 0 {
        return BackendRoute::AmbiguousScsiMapping;
    }
    route_backend(
        &RoutingEvidence {
            scsi_generic_count: mapping.entries.len(),
            inquiry,
            supported_vpd_pages,
            transport_available: true,
            controller_logical_volume,
        },
    )
}

#[derive(Debug, Clone, Copy, PartialEq, Eq, Structural)]
pub struct TransportCompletion {
    pub ioctl_succeeded: bool,
    pub scsi_status: u8,
    pub host_status: u16,
    pub driver_status: u16,
    pub residual: i32,
    pub requested_len: usize,
    pub sense_written: usize,
    pub sense_capacity: usize,
}

#[derive(Debug, Clone, Copy, PartialEq, Eq, Structural)]
pub enum CompletionOutcome {
    DataIn { payload_len: usize },
    CheckCondition { sense_len: usize },
    Busy,
    ReservationConflict,
}

#[derive(Debug, Clone, Copy, PartialEq, Eq, Structural)]
pub enum CompletionError {
    IoctlFailed,
    HostStatus(u16),
    DriverStatus(u16),
    InvalidResidual(i32),
    InvalidSenseLength { written: usize, capacity: usize },
    UnexpectedScsiStatus(u8),
}

/// What a finished SG_IO transfer means, checked in a fixed order:
/// transport failures first, then bounds, then the SCSI status.
pub open spec fn completion_of(c: TransportCompletion) -> Result<CompletionOutcome, CompletionError> {
    if !c.ioctl_succeeded {
        Err(CompletionError::IoctlFailed)
    } else if c.host_status != 0 {
        Err(CompletionError::HostStatus(c.host_status))
    } else if c.driver_status != 0 {
        Err(CompletionError::DriverStatus(c.driver_status))
    } else if c.residual < 0 || c.residual > c.requested_len {
        Err(CompletionError::InvalidResidual(c.residual))
    } else if c.sense_written > c.sense_capacity {
        Err(
            CompletionError::InvalidSenseLength {
                written: c.sense_written,
                capacity: c.sense_capacity,
            },
        )
    } else if c.scsi_status == 0x00 {
        Ok(CompletionOutcome::DataIn { payload_len: (c.requested_len - c.residual) as usize })
    } else if c.scsi_status == 0x02 {
        Ok(CompletionOutcome::CheckCondition { sense_len: c.sense_written })
    } else if c.scsi_status == 0x08 {
        Ok(CompletionOutcome::Busy)
    } else if c.scsi_status == 0x18 {
        Ok(CompletionOutcome::ReservationConflict)
    } else {
        Err(CompletionError::UnexpectedScsiStatus(c.scsi_status))
    }
}

pub fn validate_completion(completion: TransportCompletion) -> (r: Result<
    CompletionOutcome,
    CompletionError,
>)
    ensures
        r == completion_of(completion),
{
    if !completion.ioctl_succeeded {
        return Err(CompletionError::IoctlFailed);
    }
    if completion.host_status != 0 {
        return Err(CompletionError::HostStatus(completion.host_status));
    }
    if completion.driver_status != 0 {
        return Err(CompletionError::DriverStatus(completion.driver_status));
    }
    if completion.residual < 0 || completion.residual as usize > completion.requested_len {
        return Err(CompletionError::InvalidResidual(completion.residual));
    }
    if completion.sense_written > completion.sense_capacity {
        return Err(
            CompletionError::InvalidSenseLength {
                written: completion.sense_written,
                capacity: completion.sense_capacity,
            },
        );
    }
    if completion.scsi_status == 0x00 {
        Ok(
            CompletionOutcome::DataIn {
                payload_len: completion.requested_len - completion.residual as usize,
            },
        )
    } else if completion.scsi_status == 0x02 {
        Ok(CompletionOutcome::CheckCondition { sense_len: completion.sense_written })
    } else if completion.scsi_status == 0x08 {
        Ok(CompletionOutcome::Busy)
    } else if completion.scsi_status == 0x18 {
        Ok(CompletionOutcome::ReservationConflict)
    } else {
        Err(CompletionError::UnexpectedScsiStatus(completion.scsi_status))
    }
}


#[derive(Debug, Clone, Copy, PartialEq, Eq, Structural)]
pub enum ParseError {
    Truncated { needed: usize, actual: usize },
    UnexpectedPage { expected: u8, actual: u8 },
    DeclaredLengthExceedsPayload { declared: usize, actual: usize },
    InvalidPeripheralQualifier(u8),
    TruncatedParameter { offset: usize, declared: usize },
    InvalidParameterWidth { code: u16, width: usize },
}

/// Prefixes the items already parsed to the outcome of parsing the rest.
pub open spec fn prepend<T>(acc: Seq<T>, rest: Result<Seq<T>, ParseError>) -> Result<
    Seq<T>,
    ParseError,
> {
    match rest {
        Ok(items) => Ok(acc + items),
        Err(e) => Err(e),
    }
}

proof fn lemma_prepend_step<T>(acc: Seq<T>, x: T, rest: Result<Seq<T>, ParseError>)
    ensures
        prepend(acc, prepend(seq![x], rest)) == prepend(acc.push(x), rest),
{
    match rest {
        Ok(items) => {
            assert(acc + (seq![x] + items) =~= acc.push(x) + items);
        },
        Err(_) => {},
    }
}

fn require_len(data: &[u8], needed: usize) -> (r: Result<(), ParseError>)
    ensures
        r == (if data@.len() < needed {
            Err(ParseError::Truncated { needed, actual: data@.len() as usize })
        } else {
            Ok(())
        }),
{
    if data.len() < needed {
        Err(ParseError::Truncated { needed, actual: data.len() })
    } else {
        Ok(())
    }
}

pub open spec fn standard_inquiry_of(d: Seq<u8>) -> Result<StandardInquiry, ParseError> {
    if d.len() < 5 {
        Err(ParseError::Truncated { needed: 5, actual: d.len() as usize })
    } else if d[0] >> 5u8 > 3 {
        Err(ParseError::InvalidPeripheralQualifier(d[0] >> 5u8))
    } else if 5 + d[4] > d.len() {
        Err(
            ParseError::DeclaredLengthExceedsPayload {
                declared: (5 + d[4]) as usize,
                actual: d.len() as usize,
            },
        )
    } else {
        Ok(
            StandardInquiry {
                peripheral_device_type: d[0] & 0x1fu8,
                removable: d[1] & 0x80u8 != 0,
                version: d[2],
            },
        )
    }
}

/// Standard INQUIRY data: device type, removable bit and version, never the
/// vendor or product text.
pub fn parse_standard_inquiry(data: &[u8]) -> (r: Result<StandardInquiry, ParseError>)
    ensures
        r == standard_inquiry_of(data@),
{
    require_len(data, 5)?;
    let qualifier = data[0] >> 5u8;
    if qualifier > 3 {
        return Err(ParseError::InvalidPeripheralQualifier(qualifier));
    }
    let total: usize = 5 + data[4] as usize;
    if total > data.len() {
        return Err(ParseError::DeclaredLengthExceedsPayload { declared: total, actual: data.len() });
    }
    Ok(
        StandardInquiry {
            peripheral_device_type: data[0] & 0x1f,
            removable: data[1] & 0x80 != 0,
            version: data[2],
        },
    )
}

/// The payload of a VPD page: its 4-byte header names the page and the
/// payload length, which must fit in the data.
pub open spec fn vpd_frame(d: Seq<u8>, expected: u8) -> Result<Seq<u8>, ParseError> {
    if d.len() < 4 {
        Err(ParseError::Truncated { needed: 4, actual: d.len() as usize })
    } else if d[1] != expected {
        Err(ParseError::UnexpectedPage { expected, actual: d[1] })
    } else if 4 + be16(d[2], d[3]) > d.len() {
        Err(
            ParseError::DeclaredLengthExceedsPayload {
                declared: (4 + be16(d[2], d[3])) as usize,
                actual: d.len() as usize,
            },
        )
    } else {
        Ok(d.subrange(4, 4 + be16(d[2], d[3])))
    }
}

fn read_be16(data: &[u8], offset: usize) -> (x: u16)
    requires
        offset + 1 < data@.len(),
    ensures
        x == be16(data@[offset as int], data@[offset + 1]),
{
    ((data[offset] as u16) << 8u16) | (data[offset + 1] as u16)
}

fn vpd_payload(data: &[u8], expected_page: u8) -> (r: Result<&[u8], ParseError>)
    ensures
        match vpd_frame(data@, expected_page) {
            Ok(p) => r matches Ok(s) && s@ == p,
            Err(e) => r == Err::<&[u8], ParseError>(e),
        },
{
    require_len(data, 4)?;
    if data[1] != expected_page {
        return Err(ParseError::UnexpectedPage { expected: expected_page, actual: data[1] });
    }
    let end: usize = 4 + read_be16(data, 2) as usize;
    if end > data.len() {
        return Err(ParseError::DeclaredLengthExceedsPayload { declared: end, actual: data.len() });
    }
    Ok(vstd::slice::slice_subrange(data, 4, end))
}

/// A parse result that carries bytes, seen as a sequence.
pub open spec fn bytes_result(r: Result<Vec<u8>, ParseError>) -> Result<Seq<u8>, ParseError> {
    match r {
        Ok(v) => Ok(v@),
        Err(e) => Err(e),
    }
}

/// The page codes listed by the Supported VPD Pages page.
pub fn parse_supported_vpd_pages(data: &[u8]) -> (r: Result<Vec<u8>, ParseError>)
    ensures
        bytes_result(r) == vpd_frame(data@, vpd_code(VpdPage::Supported)),
{
    let payload = vpd_payload(data, VpdPage::Supported.code())?;
    Ok(vstd::slice::slice_to_vec(payload))
}

#[derive(Debug, Clone, PartialEq, Eq)]
pub struct DeviceIdDescriptor {
    pub protocol_identifier: u8,
    pub code_set: u8,
    pub association: u8,
    pub designator_type: u8,
    pub value: Vec<u8>,
}

pub struct DeviceIdDescriptorView {
    pub protocol_identifier: u8,
    pub code_set: u8,
    pub association: u8,
    pub designator_type: u8,
    pub value: Seq<u8>,
}

impl View for DeviceIdDescriptor {
    type V = DeviceIdDescriptorView;

    open spec fn view(&self) -> DeviceIdDescriptorView {
        DeviceIdDescriptorView {
            protocol_identifier: self.protocol_identifier,
            code_set: self.code_set,
            association: self.association,
            designator_type: self.designator_type,
            value: self.value@,
        }
    }
}

/// The designation descriptor whose header starts at `offset` and whose
/// value ends at `next`.
pub open spec fn descriptor_view(p: Seq<u8>, offset: int, next: int) -> DeviceIdDescriptorView {
    DeviceIdDescriptorView {
        protocol_identifier: p[offset] >> 4u8,
        code_set: p[offset] & 0x0fu8,
        association: (p[offset + 1] >> 4u8) & 0x03u8,
        designator_type: p[offset + 1] & 0x0fu8,
        value: p.subrange(offset + 4, next),
    }
}

/// The designation descriptors of a Device Identification payload, from
/// `offset` on; a descriptor that does not fit is an error, never dropped.
pub open spec fn id_descriptors_from(p: Seq<u8>, offset: int) -> Result<
    Seq<DeviceIdDescriptorView>,
    ParseError,
>
    decreases p.len() - offset,
{
    if offset >= p.len() {
        Ok(seq![])
    } else if offset + 4 > p.len() {
        Err(
            ParseError::TruncatedParameter {
                offset: (offset + 4) as usize,
                declared: (p.len() - offset) as usize,
            },
        )
    } else if offset + 4 + p[offset + 3] > p.len() {
        Err(
            ParseError::TruncatedParameter {
                offset: (offset + 4) as usize,
                declared: p[offset + 3] as usize,
            },
        )
    } else {
        let next = offset + 4 + p[offset + 3];
        prepend(seq![descriptor_view(p, offset, next)], id_descriptors_from(p, next))
    }
}

pub open spec fn device_identification_of(d: Seq<u8>) -> Result<
    Seq<DeviceIdDescriptorView>,
    ParseError,
> {
    match vpd_frame(d, vpd_code(VpdPage::DeviceIdentification)) {
        Ok(p) => id_descriptors_from(p, 0),
        Err(e) => Err(e),
    }
}

pub open spec fn descriptors_view(v: Seq<DeviceIdDescriptor>) -> Seq<DeviceIdDescriptorView> {
    v.map_values(|d: DeviceIdDescriptor| d@)
}

/// The designation descriptors of the Device Identification VPD page, with
/// their values kept as bytes.
pub fn parse_device_identification_vpd(data: &[u8]) -> (r: Result<
    Vec<DeviceIdDescriptor>,
    ParseError,
>)
    ensures
        match device_identification_of(data@) {
            Ok(ds) => r matches Ok(v) && descriptors_view(v@) == ds,
            Err(e) => r == Err::<Vec<DeviceIdDescriptor>, ParseError>(e),
        },
{
    let payload = vpd_payload(data, VpdPage::DeviceIdentification.code())?;
    let ghost p = payload@;
    let mut descriptors: Vec<DeviceIdDescriptor> = Vec::new();
    let mut offset: usize = 0;
    while offset < payload.len()
        invariant
            p == payload@,
            offset <= p.len(),
            p.len() <= 0x10000,
            device_identification_of(data@) == prepend(
                descriptors_view(descriptors@),
                id_descriptors_from(p, offset as int),
            ),
        decreases p.len() - offset,
    {
        if offset + 4 > payload.len() {
            return Err(
                ParseError::TruncatedParameter {
                    offset: offset + 4,
                    declared: payload.len() - offset,
                },
            );
        }
        let length: usize = payload[offset + 3] as usize;
        let value_start: usize = offset + 4;
        if length > payload.len() - value_start {
            return Err(ParseError::TruncatedParameter { offset: offset + 4, declared: length });
        }
        let next: usize = value_start + length;
        let descriptor = DeviceIdDescriptor {
            protocol_identifier: payload[offset] >> 4u8,
            code_set: payload[offset] & 0x0f,
            association: (payload[offset + 1] >> 4u8) & 0x03,
            designator_type: payload[offset + 1] & 0x0f,
            value: vstd::slice::slice_to_vec(vstd::slice::slice_subrange(payload, value_start, next)),
        };
        proof {
            lemma_prepend_step(
                descriptors_view(descriptors@),
                descriptor@,
                id_descriptors_from(p, next as int),
            );
        }
        let ghost before = descriptors@;
        let ghost view = descriptor@;
        descriptors.push(descriptor);
        assert(descriptors_view(descriptors@) =~= descriptors_view(before).push(view));
        offset = next;
    }
    Ok(descriptors)
}


#[derive(Debug, Clone, Copy, PartialEq, Eq, Structural)]
pub enum MediumRotation {
    Unknown,
    SolidState,
    RotationalRpm(u16),
}

pub open spec fn rotation_of(rate: u16) -> MediumRotation {
    if rate == 0x0001 {
        MediumRotation::SolidState
    } else if 0x0401 <= rate <= 0xfffe {
        MediumRotation::RotationalRpm(rate)
    } else {
        MediumRotation::Unknown
    }
}

pub open spec fn block_characteristics_of(d: Seq<u8>) -> Result<MediumRotation, ParseError> {
    match vpd_frame(d, vpd_code(VpdPage::BlockDeviceCharacteristics)) {
        Ok(p) => if p.len() < 2 {
            Err(ParseError::Truncated { needed: 2, actual: p.len() as usize })
        } else {
            Ok(rotation_of(be16(p[0], p[1])))
        },
        Err(e) => Err(e),
    }
}

/// The medium rotation rate of the Block Device Characteristics VPD page.
pub fn parse_block_device_characteristics_vpd(data: &[u8]) -> (r: Result<MediumRotation, ParseError>)
    ensures
        r == block_characteristics_of(data@),
{
    let payload = vpd_payload(data, VpdPage::BlockDeviceCharacteristics.code())?;
    require_len(payload, 2)?;
    let rate = read_be16(payload, 0);
    if rate == 0x0001 {
        Ok(MediumRotation::SolidState)
    } else if 0x0401 <= rate && rate <= 0xfffe {
        Ok(MediumRotation::RotationalRpm(rate))
    } else {
        Ok(MediumRotation::Unknown)
    }
}

/// The end of a log page's parameter area: the 4-byte header names the page
/// in its low six bits and the parameter length, which must fit in the data.
pub open spec fn log_frame_end(d: Seq<u8>, expected: u8) -> Result<int, ParseError> {
    if d.len() < 4 {
        Err(ParseError::Truncated { needed: 4, actual: d.len() as usize })
    } else if d[0] & 0x3fu8 != expected {
        Err(ParseError::UnexpectedPage { expected, actual: d[0] & 0x3fu8 })
    } else if 4 + be16(d[2], d[3]) > d.len() {
        Err(
            ParseError::DeclaredLengthExceedsPayload {
                declared: (4 + be16(d[2], d[3])) as usize,
                actual: d.len() as usize,
            },
        )
    } else {
        Ok(4 + be16(d[2], d[3]))
    }
}

fn log_frame(data: &[u8], expected_page: u8) -> (r: Result<usize, ParseError>)
    ensures
        match log_frame_end(data@, expected_page) {
            Ok(end) => r == Ok::<usize, ParseError>(end as usize),
            Err(e) => r == Err::<usize, ParseError>(e),
        },
        r matches Ok(end) ==> 4 <= end <= data@.len() && end <= 0x10003,
{
    require_len(data, 4)?;
    let actual_page = data[0] & 0x3f;
    if actual_page != expected_page {
        return Err(ParseError::UnexpectedPage { expected: expected_page, actual: actual_page });
    }
    let end: usize = 4 + read_be16(data, 2) as usize;
    if end > data.len() {
        return Err(ParseError::DeclaredLengthExceedsPayload { declared: end, actual: data.len() });
    }
    Ok(end)
}

/// The page codes listed by the Supported Log Pages page.
pub open spec fn supported_log_pages_of(d: Seq<u8>) -> Result<Seq<u8>, ParseError> {
    match log_frame_end(d, log_code(LogPage::Supported)) {
        Ok(end) => Ok(Seq::new((end - 4) as nat, |i: int| d[4 + i] & 0x3fu8)),
        Err(e) => Err(e),
    }
}

pub fn parse_supported_log_pages(data: &[u8]) -> (r: Result<Vec<u8>, ParseError>)
    ensures
        bytes_result(r) == supported_log_pages_of(data@),
{
    let end = log_frame(data, LogPage::Supported.code())?;
    let mut pages: Vec<u8> = Vec::new();
    let mut i: usize = 4;
    while i < end
        invariant
            4 <= i <= end,
            end <= data@.len(),
            pages@.len() == i - 4,
            forall|k: int| 0 <= k < i - 4 ==> pages@[k] == data@[4 + k] & 0x3fu8,
        decreases end - i,
    {
        pages.push(data[i] & 0x3f);
        i = i + 1;
    }
    assert(pages@ =~= Seq::new((end - 4) as nat, |k: int| data@[4 + k] & 0x3fu8));
    Ok(pages)
}

/// A log parameter: its code and its value bytes.
pub type LogParam = (u16, Seq<u8>);

/// The log parameters from `offset` up to `end`; one that does not fit is an
/// error, never dropped.
pub open spec fn log_params_from(d: Seq<u8>, offset: int, end: int) -> Result<
    Seq<LogParam>,
    ParseError,
>
    decreases end - offset,
{
    if offset >= end {
        Ok(seq![])
    } else if offset + 4 > end {
        Err(
            ParseError::TruncatedParameter {
                offset: offset as usize,
                declared: (end - offset) as usize,
            },
        )
    } else if offset + 4 + d[offset + 3] > end {
        Err(ParseError::TruncatedParameter { offset: offset as usize, declared: d[offset + 3] as usize })
    } else {
        let next = offset + 4 + d[offset + 3];
        prepend(
            seq![(be16(d[offset], d[offset + 1]), d.subrange(offset + 4, next))],
            log_params_from(d, next, end),
        )
    }
}

/// The parameters of a log page that must be `expected`.
pub open spec fn log_params_of(d: Seq<u8>, expected: u8) -> Result<Seq<LogParam>, ParseError> {
    match log_frame_end(d, expected) {
        Ok(end) => log_params_from(d, 4, end),
        Err(e) => Err(e),
    }
}

/// Where a parsed parameter lies in the page.
#[derive(Clone, Copy)]
struct LogParameter {
    code: u16,
    start: usize,
    end: usize,
}

spec fn params_view(d: Seq<u8>, v: Seq<LogParameter>) -> Seq<LogParam> {
    v.map_values(|p: LogParameter| (p.code, d.subrange(p.start as int, p.end as int)))
}

spec fn params_in(d: Seq<u8>, v: Seq<LogParameter>) -> bool {
    forall|k: int| 0 <= k < v.len() ==> #[trigger] v[k].start <= v[k].end <= d.len()
}

fn parse_log_parameters(data: &[u8], expected_page: u8) -> (r: Result<Vec<LogParameter>, ParseError>)
    ensures
        match log_params_of(data@, expected_page) {
            Ok(ps) => r matches Ok(v) && params_view(data@, v@) == ps && params_in(data@, v@),
            Err(e) => r == Err::<Vec<LogParameter>, ParseError>(e),
        },
{
    let end = log_frame(data, expected_page)?;
    let mut parameters: Vec<LogParameter> = Vec::new();
    let mut offset: usize = 4;
    while offset < end
        invariant
            4 <= offset <= end,
            end <= data@.len(),
            end <= 0x10003,
            params_in(data@, parameters@),
            log_params_of(data@, expected_page) == prepend(
                params_view(data@, parameters@),
                log_params_from(data@, offset as int, end as int),
            ),
        decreases end - offset,
    {
        if offset + 4 > end {
            return Err(ParseError::TruncatedParameter { offset, declared: end - offset });
        }
        let length: usize = data[offset + 3] as usize;
        let value_start: usize = offset + 4;
        if length > end - value_start {
            return Err(ParseError::TruncatedParameter { offset, declared: length });
        }
        let next: usize = value_start + length;
        let parameter = LogParameter { code: read_be16(data, offset), start: value_start, end: next };
        let ghost item: LogParam = (parameter.code, data@.subrange(value_start as int, next as int));
        proof {
            lemma_prepend_step(
                params_view(data@, parameters@),
                item,
                log_params_from(data@, next as int, end as int),
            );
        }
        let ghost before = parameters@;
        parameters.push(parameter);
        assert(params_view(data@, parameters@) =~= params_view(data@, before).push(item));
        offset = next;
    }
    Ok(parameters)
}

#[derive(Debug, Clone, Copy, PartialEq, Eq, Structural)]
pub struct Temperature {
    pub current_c: Option<u8>,
    pub reference_c: Option<u8>,
}

/// A temperature byte; 0xff means the reading is unavailable, not a value.
pub open spec fn temperature_reading(value: Seq<u8>) -> Option<u8> {
    if value.len() > 1 && value[1] != 0xff {
        Some(value[1])
    } else {
        None
    }
}

/// Folds the Temperature log parameters; a later parameter with the same
/// code replaces an earlier one.
pub open spec fn temperature_fold(ps: Seq<LogParam>) -> Temperature
    decreases ps.len(),
{
    if ps.len() == 0 {
        Temperature { current_c: None, reference_c: None }
    } else {
        let t = temperature_fold(ps.drop_last());
        let p = ps.last();
        if p.0 == 0 {
            Temperature { current_c: temperature_reading(p.1), ..t }
        } else if p.0 == 1 {
            Temperature { reference_c: temperature_reading(p.1), ..t }
        } else {
            t
        }
    }
}

pub open spec fn temperature_of(d: Seq<u8>) -> Result<Temperature, ParseError> {
    match log_params_of(d, log_code(LogPage::Temperature)) {
        Ok(ps) => Ok(temperature_fold(ps)),
        Err(e) => Err(e),
    }
}

/// Current and reference temperature from the Temperature log page.
pub fn parse_temperature_log(data: &[u8]) -> (r: Result<Temperature, ParseError>)
    ensures
        r == temperature_of(data@),
{
    let parameters = parse_log_parameters(data, LogPage::Temperature.code())?;
    let ghost ps = params_view(data@, parameters@);
    let mut temperature = Temperature { current_c: None, reference_c: None };
    let mut i: usize = 0;
    while i < parameters.len()
        invariant
            i <= parameters@.len(),
            ps == params_view(data@, parameters@),
            params_in(data@, parameters@),
            temperature == temperature_fold(ps.take(i as int)),
        decreases parameters@.len() - i,
    {
        let parameter = parameters[i];
        let value: Option<u8> = if parameter.end - parameter.start > 1 && data[parameter.start + 1] != 0xff {
            Some(data[parameter.start + 1])
        } else {
            None
        };
        assert(ps.take(i + 1).drop_last() =~= ps.take(i as int));
        assert(value == temperature_reading(ps[i as int].1));
        if parameter.code == 0 {
            temperature.current_c = value;
        } else if parameter.code == 1 {
            temperature.reference_c = value;
        }
        i = i + 1;
    }
    assert(ps.take(parameters@.len() as int) =~= ps);
    Ok(temperature)
}


#[derive(Debug, Clone, Copy, PartialEq, Eq, Structural)]
pub struct ErrorCounters {
    pub total_rewrites_or_rereads: Option<u64>,
    pub total_errors_corrected: Option<u64>,
    pub correction_algorithm_invocations: Option<u64>,
    pub total_bytes_processed: Option<u64>,
    pub total_uncorrected_errors: Option<u64>,
}

pub open spec fn no_counters() -> ErrorCounters {
    ErrorCounters {
        total_rewrites_or_rereads: None,
        total_errors_corrected: None,
        correction_algorithm_invocations: None,
        total_bytes_processed: None,
        total_uncorrected_errors: None,
    }
}

impl Default for ErrorCounters {
    fn default() -> (c: ErrorCounters)
        ensures
            c == no_counters(),
    {
        ErrorCounters {
            total_rewrites_or_rereads: None,
            total_errors_corrected: None,
            correction_algorithm_invocations: None,
            total_bytes_processed: None,
            total_uncorrected_errors: None,
        }
    }
}

pub open spec fn be32(a: u8, b: u8, c: u8, d: u8) -> u32 {
    ((a as u32) << 24u32) | ((b as u32) << 16u32) | ((c as u32) << 8u32) | (d as u32)
}

/// A counter parameter's value: a big-endian integer of 1, 2, 4 or 8 bytes.
pub open spec fn counter_value(code: u16, v: Seq<u8>) -> Result<u64, ParseError> {
    if v.len() == 1 {
        Ok(v[0] as u64)
    } else if v.len() == 2 {
        Ok(be16(v[0], v[1]) as u64)
    } else if v.len() == 4 {
        Ok(be32(v[0], v[1], v[2], v[3]) as u64)
    } else if v.len() == 8 {
        Ok(((be32(v[0], v[1], v[2], v[3]) as u64) << 32u64) | (be32(v[4], v[5], v[6], v[7]) as u64))
    } else {
        Err(ParseError::InvalidParameterWidth { code, width: v.len() as usize })
    }
}

fn parameter_u64(data: &[u8], parameter: LogParameter) -> (r: Result<u64, ParseError>)
    requires
        parameter.start <= parameter.end <= data@.len(),
    ensures
        r == counter_value(
            parameter.code,
            data@.subrange(parameter.start as int, parameter.end as int),
        ),
{
    let s = parameter.start;
    let width = parameter.end - parameter.start;
    let ghost v = data@.subrange(parameter.start as int, parameter.end as int);
    if width == 1 {
        Ok(data[s] as u64)
    } else if width == 2 {
        Ok(read_be16(data, s) as u64)
    } else if width == 4 {
        let x: u32 = ((data[s] as u32) << 24u32) | ((data[s + 1] as u32) << 16u32) | ((data[s
            + 2] as u32) << 8u32) | (data[s + 3] as u32);
        assert(x == be32(v[0], v[1], v[2], v[3]));
        Ok(x as u64)
    } else if width == 8 {
        let hi: u32 = ((data[s] as u32) << 24u32) | ((data[s + 1] as u32) << 16u32) | ((data[s
            + 2] as u32) << 8u32) | (data[s + 3] as u32);
        let lo: u32 = ((data[s + 4] as u32) << 24u32) | ((data[s + 5] as u32) << 16u32) | ((data[s
            + 6] as u32) << 8u32) | (data[s + 7] as u32);
        assert(hi == be32(v[0], v[1], v[2], v[3]));
        assert(lo == be32(v[4], v[5], v[6], v[7]));
        Ok(((hi as u64) << 32u64) | (lo as u64))
    } else {
        Err(ParseError::InvalidParameterWidth { code: parameter.code, width })
    }
}

pub open spec fn set_counter(c: ErrorCounters, code: u16, value: u64) -> ErrorCounters {
    if code == 2 {
        ErrorCounters { total_rewrites_or_rereads: Some(value), ..c }
    } else if code == 3 {
        ErrorCounters { total_errors_corrected: Some(value), ..c }
    } else if code == 4 {
        ErrorCounters { correction_algorithm_invocations: Some(value), ..c }
    } else if code == 5 {
        ErrorCounters { total_bytes_processed: Some(value), ..c }
    } else if code == 6 {
        ErrorCounters { total_uncorrected_errors: Some(value), ..c }
    } else {
        c
    }
}

/// Folds the counter parameters in order: every parameter, whatever its
/// code, must have a valid integer width; a later one replaces an earlier.
pub open spec fn counters_fold(ps: Seq<LogParam>) -> Result<ErrorCounters, ParseError>
    decreases ps.len(),
{
    if ps.len() == 0 {
        Ok(no_counters())
    } else {
        match counters_fold(ps.drop_last()) {
            Err(e) => Err(e),
            Ok(c) => match counter_value(ps.last().0, ps.last().1) {
                Err(e) => Err(e),
                Ok(value) => Ok(set_counter(c, ps.last().0, value)),
            },
        }
    }
}

pub open spec fn error_counters_of(d: Seq<u8>, page: LogPage) -> Result<ErrorCounters, ParseError> {
    if page != LogPage::ReadErrors && page != LogPage::WriteErrors {
        Err(
            ParseError::UnexpectedPage {
                expected: log_code(LogPage::ReadErrors),
                actual: log_code(page),
            },
        )
    } else {
        match log_params_of(d, log_code(page)) {
            Ok(ps) => counters_fold(ps),
            Err(e) => Err(e),
        }
    }
}

/// An error in a prefix of the parameters is the error of the whole fold.
proof fn lemma_counters_error_persists(ps: Seq<LogParam>, j: int)
    requires
        0 <= j <= ps.len(),
        counters_fold(ps.take(j)) is Err,
    ensures
        counters_fold(ps) == counters_fold(ps.take(j)),
    decreases ps.len() - j,
{
    if j == ps.len() {
        assert(ps.take(j) =~= ps);
    } else {
        assert(ps.take(j + 1).drop_last() =~= ps.take(j));
        lemma_counters_error_persists(ps, j + 1);
    }
}

/// The value of the last parameter with `code` among `ps`, as a big-endian
/// integer of its width; `None` when no parameter has that code.
pub open spec fn last_code_value(ps: Seq<LogParam>, code: u16) -> Option<u64>
    decreases ps.len(),
{
    if ps.len() == 0 {
        None
    } else if ps.last().0 == code {
        match counter_value(code, ps.last().1) {
            Ok(v) => Some(v),
            Err(_) => None,
        }
    } else {
        last_code_value(ps.drop_last(), code)
    }
}

/// The error counters of well-formed parameters, by SPC parameter code:
/// 0x0002 rewrites or rereads, 0x0003 errors corrected, 0x0004 correction
/// algorithm invocations, 0x0005 bytes processed, 0x0006 uncorrected
/// errors; each holds the value of the last parameter with its code, and is
/// absent when no parameter has it.
pub proof fn lemma_error_counters_by_code(ps: Seq<LogParam>)
    requires
        counters_fold(ps) is Ok,
    ensures
        counters_fold(ps)->Ok_0.total_rewrites_or_rereads == last_code_value(ps, 0x0002),
        counters_fold(ps)->Ok_0.total_errors_corrected == last_code_value(ps, 0x0003),
        counters_fold(ps)->Ok_0.correction_algorithm_invocations == last_code_value(ps, 0x0004),
        counters_fold(ps)->Ok_0.total_bytes_processed == last_code_value(ps, 0x0005),
        counters_fold(ps)->Ok_0.total_uncorrected_errors == last_code_value(ps, 0x0006),
    decreases ps.len(),
{
    if ps.len() > 0 {
        lemma_error_counters_by_code(ps.drop_last());
    }
}

/// What a read or write error counter page reports: each counter is the
/// value of the page's last parameter with that counter's code.
pub proof fn lemma_error_counter_page_by_code(d: Seq<u8>, page: LogPage)
    requires
        error_counters_of(d, page) is Ok,
    ensures
        log_params_of(d, log_code(page)) is Ok,
        ({
            let ps = log_params_of(d, log_code(page))->Ok_0;
            let c = error_counters_of(d, page)->Ok_0;
            &&& c.total_rewrites_or_rereads == last_code_value(ps, 0x0002)
            &&& c.total_errors_corrected == last_code_value(ps, 0x0003)
            &&& c.correction_algorithm_invocations == last_code_value(ps, 0x0004)
            &&& c.total_bytes_processed == last_code_value(ps, 0x0005)
            &&& c.total_uncorrected_errors == last_code_value(ps, 0x0006)
        }),
{
    lemma_error_counters_by_code(log_params_of(d, log_code(page))->Ok_0);
}


/// The counters of a Read or Write Error Counter log page.
pub fn parse_error_counter_log(data: &[u8], page: LogPage) -> (r: Result<ErrorCounters, ParseError>)
    ensures
        r == error_counters_of(data@, page),
{
    if page != LogPage::ReadErrors && page != LogPage::WriteErrors {
        return Err(
            ParseError::UnexpectedPage {
                expected: LogPage::ReadErrors.code(),
                actual: page.code(),
            },
        );
    }
    let parameters = parse_log_parameters(data, page.code())?;
    let ghost ps = params_view(data@, parameters@);
    let mut counters = ErrorCounters::default();
    let mut i: usize = 0;
    while i < parameters.len()
        invariant
            i <= parameters@.len(),
            ps == params_view(data@, parameters@),
            params_in(data@, parameters@),
            counters_fold(ps.take(i as int)) == Ok::<ErrorCounters, ParseError>(counters),
            error_counters_of(data@, page) == counters_fold(ps),
        decreases parameters@.len() - i,
    {
        let parameter = parameters[i];
        assert(ps.take(i + 1).drop_last() =~= ps.take(i as int));
        let value = match parameter_u64(data, parameter) {
            Ok(value) => value,
            Err(e) => {
                proof {
                    assert(ps.take(i + 1).last() == ps[i as int]);
                    lemma_counters_error_persists(ps, i + 1);
                }
                return Err(e);
            },
        };
        if parameter.code == 2 {
            counters.total_rewrites_or_rereads = Some(value);
        } else if parameter.code == 3 {
            counters.total_errors_corrected = Some(value);
        } else if parameter.code == 4 {
            counters.correction_algorithm_invocations = Some(value);
        } else if parameter.code == 5 {
            counters.total_bytes_processed = Some(value);
        } else if parameter.code == 6 {
            counters.total_uncorrected_errors = Some(value);
        }
        i = i + 1;
    }
    assert(ps.take(parameters@.len() as int) =~= ps);
    Ok(counters)
}

/// The first parameter with `code`, if any.
pub open spec fn first_with_code(ps: Seq<LogParam>, code: u16) -> Option<LogParam>
    decreases ps.len(),
{
    if ps.len() == 0 {
        None
    } else if ps[0].0 == code {
        Some(ps[0])
    } else {
        first_with_code(ps.drop_first(), code)
    }
}

fn find_code(parameters: &Vec<LogParameter>, code: u16, Ghost(d): Ghost<Seq<u8>>) -> (r: Option<LogParameter>)
    requires
        params_in(d, parameters@),
    ensures
        match first_with_code(params_view(d, parameters@), code) {
            None => r.is_none(),
            Some(p) => r matches Some(q) && q.code == p.0 && q.start <= q.end <= d.len() && d.subrange(
                q.start as int,
                q.end as int,
            ) == p.1,
        },
{
    let ghost ps = params_view(d, parameters@);
    assert(ps.subrange(0, ps.len() as int) =~= ps);
    let mut i: usize = 0;
    while i < parameters.len()
        invariant
            i <= parameters@.len(),
            ps == params_view(d, parameters@),
            params_in(d, parameters@),
            first_with_code(ps, code) == first_with_code(ps.subrange(i as int, ps.len() as int), code),
        decreases parameters@.len() - i,
    {
        assert(ps.subrange(i as int, ps.len() as int).drop_first() =~= ps.subrange(i + 1, ps.len() as int));
        if parameters[i].code == code {
            assert(ps.subrange(i as int, ps.len() as int)[0] == ps[i as int]);
            return Some(parameters[i]);
        }
        i = i + 1;
    }
    None
}

pub open spec fn non_medium_errors_of(d: Seq<u8>) -> Result<Option<u64>, ParseError> {
    match log_params_of(d, log_code(LogPage::NonMediumErrors)) {
        Err(e) => Err(e),
        Ok(ps) => match first_with_code(ps, 0) {
            None => Ok(None),
            Some(p) => match counter_value(p.0, p.1) {
                Ok(v) => Ok(Some(v)),
                Err(e) => Err(e),
            },
        },
    }
}

/// The non-medium error count: the value of parameter 0, when present.
pub fn parse_non_medium_error_log(data: &[u8]) -> (r: Result<Option<u64>, ParseError>)
    ensures
        r == non_medium_errors_of(data@),
{
    let parameters = parse_log_parameters(data, LogPage::NonMediumErrors.code())?;
    match find_code(&parameters, 0, Ghost(data@)) {
        None => Ok(None),
        Some(parameter) => {
            let value = parameter_u64(data, parameter)?;
            Ok(Some(value))
        },
    }
}

#[derive(Debug, Clone, Copy, PartialEq, Eq, Structural)]
pub struct InformationalException {
    pub asc: u8,
    pub ascq: u8,
    pub temperature_c: Option<u8>,
}

impl InformationalException {
    /// ASC 0x5d is a failure prediction threshold exceeded.
    pub fn failure_predicted(self) -> (r: bool)
        ensures
            r == (self.asc == 0x5d),
    {
        self.asc == 0x5d
    }
}

pub open spec fn informational_exception_of(d: Seq<u8>) -> Result<
    Option<InformationalException>,
    ParseError,
> {
    match log_params_of(d, log_code(LogPage::InformationalExceptions)) {
        Err(e) => Err(e),
        Ok(ps) => match first_with_code(ps, 0) {
            None => Ok(None),
            Some(p) => if p.1.len() < 3 {
                Err(ParseError::TruncatedParameter { offset: 4, declared: p.1.len() as usize })
            } else {
                Ok(
                    Some(
                        InformationalException {
                            asc: p.1[0],
                            ascq: p.1[1],
                            temperature_c: if p.1[2] != 0xff {
                                Some(p.1[2])
                            } else {
                                None
                            },
                        },
                    ),
                )
            },
        },
    }
}

/// The Informational Exceptions log page: the exception's ASC/ASCQ and the
/// temperature, unavailable when the device reports 0xff.
pub fn parse_informational_exception_log(data: &[u8]) -> (r: Result<
    Option<InformationalException>,
    ParseError,
>)
    ensures
        r == informational_exception_of(data@),
{
    let parameters = parse_log_parameters(data, LogPage::InformationalExceptions.code())?;
    let parameter = match find_code(&parameters, 0, Ghost(data@)) {
        None => return Ok(None),
        Some(parameter) => parameter,
    };
    let width = parameter.end - parameter.start;
    if width < 3 {
        return Err(ParseError::TruncatedParameter { offset: 4, declared: width });
    }
    let s = parameter.start;
    let temperature = data[s + 2];
    Ok(
        Some(
            InformationalException {
                asc: data[s],
                ascq: data[s + 1],
                temperature_c: if temperature != 0xff {
                    Some(temperature)
                } else {
                    None
                },
            },
        ),
    )
}

#[derive(Debug, Clone, Copy, PartialEq, Eq, Structural)]
pub enum SenseFormat {
    Fixed,
    Descriptor,
}

#[derive(Debug, Clone, Copy, PartialEq, Eq, Structural)]
pub struct SenseData {
    pub format: SenseFormat,
    pub sense_key: u8,
    pub asc: u8,
    pub ascq: u8,
}

#[derive(Debug, Clone, Copy, PartialEq, Eq, Structural)]
pub enum SenseAction {
    Unsupported,
    RetryOnceRefreshCapabilities,
    RetryOnce,
    TemporarilyUnavailable,
    MediaFailure,
    HardwareFailure,
    Report,
}

/// The bounded reaction to sense data: an optional command may be reported
/// unsupported, a unit attention or aborted command is retried once, and
/// media and hardware failures are never hidden.
pub open spec fn sense_action_of(s: SenseData, optional_command: bool, retry_attempted: bool) -> SenseAction {
    if s.sense_key == 0x05 && (s.asc == 0x20 || s.asc == 0x24) && s.ascq == 0x00 && optional_command {
        SenseAction::Unsupported
    } else if s.sense_key == 0x06 && !retry_attempted {
        SenseAction::RetryOnceRefreshCapabilities
    } else if s.sense_key == 0x0b && !retry_attempted {
        SenseAction::RetryOnce
    } else if s.sense_key == 0x02 {
        SenseAction::TemporarilyUnavailable
    } else if s.sense_key == 0x03 {
        SenseAction::MediaFailure
    } else if s.sense_key == 0x04 {
        SenseAction::HardwareFailure
    } else {
        SenseAction::Report
    }
}

pub fn sense_action(sense: SenseData, optional_command: bool, retry_attempted: bool) -> (a: SenseAction)
    ensures
        a == sense_action_of(sense, optional_command, retry_attempted),
{
    if sense.sense_key == 0x05 && (sense.asc == 0x20 || sense.asc == 0x24) && sense.ascq == 0x00
        && optional_command {
        SenseAction::Unsupported
    } else if sense.sense_key == 0x06 && !retry_attempted {
        SenseAction::RetryOnceRefreshCapabilities
    } else if sense.sense_key == 0x0b && !retry_attempted {
        SenseAction::RetryOnce
    } else if sense.sense_key == 0x02 {
        SenseAction::TemporarilyUnavailable
    } else if sense.sense_key == 0x03 {
        SenseAction::MediaFailure
    } else if sense.sense_key == 0x04 {
        SenseAction::HardwareFailure
    } else {
        SenseAction::Report
    }
}

pub open spec fn sense_of(d: Seq<u8>) -> Result<SenseData, ParseError> {
    if d.len() < 1 {
        Err(ParseError::Truncated { needed: 1, actual: d.len() as usize })
    } else {
        let code = d[0] & 0x7fu8;
        if code == 0x70 || code == 0x71 {
            if d.len() < 14 {
                Err(ParseError::Truncated { needed: 14, actual: d.len() as usize })
            } else {
                Ok(
                    SenseData {
                        format: SenseFormat::Fixed,
                        sense_key: d[2] & 0x0fu8,
                        asc: d[12],
                        ascq: d[13],
                    },
                )
            }
        } else if code == 0x72 || code == 0x73 {
            if d.len() < 4 {
                Err(ParseError::Truncated { needed: 4, actual: d.len() as usize })
            } else {
                Ok(
                    SenseData {
                        format: SenseFormat::Descriptor,
                        sense_key: d[1] & 0x0fu8,
                        asc: d[2],
                        ascq: d[3],
                    },
                )
            }
        } else {
            Err(ParseError::UnexpectedPage { expected: 0x70, actual: code })
        }
    }
}

/// Sense key, ASC and ASCQ of fixed-format or descriptor-format sense data.
pub fn parse_sense(data: &[u8]) -> (r: Result<SenseData, ParseError>)
    ensures
        r == sense_of(data@),
{
    require_len(data, 1)?;
    let code = data[0] & 0x7f;
    if code == 0x70 || code == 0x71 {
        require_len(data, 14)?;
        Ok(
            SenseData {
                format: SenseFormat::Fixed,
                sense_key: data[2] & 0x0f,
                asc: data[12],
                ascq: data[13],
            },
        )
    } else if code == 0x72 || code == 0x73 {
        require_len(data, 4)?;
        Ok(
            SenseData {
                format: SenseFormat::Descriptor,
                sense_key: data[1] & 0x0f,
                asc: data[2],
                ascq: data[3],
            },
        )
    } else {
        Err(ParseError::UnexpectedPage { expected: 0x70, actual: code })
    }
}


/// Full length of the ATA Information VPD page, header included.
pub const ATA_INFORMATION_PAGE_LEN: usize = 572;

/// The fields of the ATA Information VPD page that decide whether a device
/// is an ATA disk behind a SAT layer.
#[derive(Debug, Clone, Copy, PartialEq, Eq, Structural)]
pub struct AtaInformationPrefix {
    pub peripheral_device_type: u8,
    /// The command that produced the IDENTIFY data (0xec for IDENTIFY
    /// DEVICE, 0xa1 for IDENTIFY PACKET DEVICE).
    pub command_code: u8,
}

/// The leading bytes of an ATA Information VPD page, through the command
/// code at byte 56. The page must be 0x89 and declare its full length; a
/// shorter allocation only returns a prefix of it.
pub open spec fn ata_information_prefix_of(d: Seq<u8>) -> Result<AtaInformationPrefix, ParseError> {
    if d.len() < 57 {
        Err(ParseError::Truncated { needed: 57, actual: d.len() as usize })
    } else if d[1] != vpd_code(VpdPage::AtaInformation) {
        Err(ParseError::UnexpectedPage { expected: vpd_code(VpdPage::AtaInformation), actual: d[1] })
    } else if 4 + be16(d[2], d[3]) < ATA_INFORMATION_PAGE_LEN {
        Err(
            ParseError::Truncated {
                needed: ATA_INFORMATION_PAGE_LEN,
                actual: (4 + be16(d[2], d[3])) as usize,
            },
        )
    } else {
        Ok(AtaInformationPrefix { peripheral_device_type: d[0] & 0x1fu8, command_code: d[56] })
    }
}

pub fn parse_ata_information_vpd_prefix(data: &[u8]) -> (r: Result<AtaInformationPrefix, ParseError>)
    ensures
        r == ata_information_prefix_of(data@),
{
    require_len(data, 57)?;
    if data[1] != VpdPage::AtaInformation.code() {
        return Err(
            ParseError::UnexpectedPage {
                expected: VpdPage::AtaInformation.code(),
                actual: data[1],
            },
        );
    }
    let declared: usize = 4 + read_be16(data, 2) as usize;
    if declared < ATA_INFORMATION_PAGE_LEN {
        return Err(ParseError::Truncated { needed: ATA_INFORMATION_PAGE_LEN, actual: declared });
    }
    Ok(AtaInformationPrefix { peripheral_device_type: data[0] & 0x1f, command_code: data[56] })
}

} // verus!
