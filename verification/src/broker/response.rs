//! Response frames of the broker protocol: a fixed header and a typed,
//! bounded payload per operation. Errors travel without any payload.
use vstd::prelude::*;
use vstd::array::*;

use super::wire::{
    decode_operation, encode_operation, get_le16, get_le32, get_le64, le16, le32, le64,
    lemma_le16_inverse, lemma_le32_inverse, lemma_le64_inverse, operation_code, operation_of_code,
    push_bytes, push_le16, push_le32, push_le64, read_le16, read_le32, read_le64, slice_from,
    u16_of, u64_of,
};
use super::{AtaBrokerOperation, AtaIdentifySummary, BrokerAtaResponse};
use crate::ata::{AtaLogDirectory, AtaLogPageSupport, AtaMedium, SmartAttribute, SmartStatus};

verus! {

broadcast use vstd::array::group_array_axioms;

pub const BROKER_RESPONSE_WIRE_VERSION: u8 = 1;

pub const RESPONSE_HEADER_LEN: usize = 20;

pub const MAX_SMART_ATTRIBUTES: usize = 64;

pub const MAX_GPL_PAGES: usize = 255;

/// Largest payload: a count and 64 fifteen-byte SMART attributes.
pub const MAX_PAYLOAD_LEN: usize = 962;

pub const MAX_RESPONSE_FRAME_LEN: usize = 982;

#[derive(Debug, Clone, Copy, PartialEq, Eq, Structural)]
pub enum BrokerResponseError {
    InvalidRequest,
    AuthorizationDenied,
    DeviceUnavailable,
    ExecutionFailed,
}

#[derive(Debug, PartialEq, Eq)]
pub struct BrokerResponseFrame {
    pub request_id: u64,
    pub operation: AtaBrokerOperation,
    pub result: Result<BrokerAtaResponse, BrokerResponseError>,
}

#[derive(Debug, Clone, Copy, PartialEq, Eq, Structural)]
pub enum BrokerResponseWireError {
    FrameTooShort,
    FrameTooLarge,
    InvalidMagic,
    UnsupportedVersion,
    NonZeroReserved,
    UnknownOperation,
    UnknownStatus,
    InvalidRequestId,
    PayloadTooLarge,
    TrailingOrMissingBytes,
    UnexpectedErrorPayload,
    OperationPayloadMismatch,
    MalformedPayload,
}

/// A broker response with its collections taken as sequences.
#[verifier::ext_equal]
pub enum BrokerAtaResponseView {
    Identify(AtaIdentifySummary),
    SmartData(Seq<SmartAttribute>),
    SmartThresholds(Seq<(u8, u8)>),
    SmartStatus(SmartStatus),
    GplDirectory { version: u16, pages: Seq<AtaLogPageSupport> },
}

impl View for BrokerAtaResponse {
    type V = BrokerAtaResponseView;

    open spec fn view(&self) -> BrokerAtaResponseView {
        match self {
            BrokerAtaResponse::Identify(s) => BrokerAtaResponseView::Identify(*s),
            BrokerAtaResponse::SmartData(v) => BrokerAtaResponseView::SmartData(v@),
            BrokerAtaResponse::SmartThresholds(v) => BrokerAtaResponseView::SmartThresholds(v@),
            BrokerAtaResponse::SmartStatus(s) => BrokerAtaResponseView::SmartStatus(*s),
            BrokerAtaResponse::GplDirectory(d) => BrokerAtaResponseView::GplDirectory {
                version: d.version,
                pages: d.supported_pages@,
            },
        }
    }
}

#[verifier::ext_equal]
pub struct BrokerResponseFrameView {
    pub request_id: u64,
    pub operation: AtaBrokerOperation,
    pub result: Result<BrokerAtaResponseView, BrokerResponseError>,
}

impl View for BrokerResponseFrame {
    type V = BrokerResponseFrameView;

    open spec fn view(&self) -> BrokerResponseFrameView {
        BrokerResponseFrameView {
            request_id: self.request_id,
            operation: self.operation,
            result: match self.result {
                Ok(r) => Ok(r@),
                Err(e) => Err(e),
            },
        }
    }
}

/// The four magic bytes "VWR1" that open every response frame.
pub open spec fn response_magic() -> Seq<u8> {
    seq![0x56u8, 0x57u8, 0x52u8, 0x31u8]
}

pub open spec fn status_code(error: Option<BrokerResponseError>) -> u8 {
    match error {
        None => 0,
        Some(BrokerResponseError::InvalidRequest) => 1,
        Some(BrokerResponseError::AuthorizationDenied) => 2,
        Some(BrokerResponseError::DeviceUnavailable) => 3,
        Some(BrokerResponseError::ExecutionFailed) => 4,
    }
}

pub open spec fn status_of_code(code: u8) -> Option<Option<BrokerResponseError>> {
    if code == 0 {
        Some(None)
    } else if code == 1 {
        Some(Some(BrokerResponseError::InvalidRequest))
    } else if code == 2 {
        Some(Some(BrokerResponseError::AuthorizationDenied))
    } else if code == 3 {
        Some(Some(BrokerResponseError::DeviceUnavailable))
    } else if code == 4 {
        Some(Some(BrokerResponseError::ExecutionFailed))
    } else {
        None
    }
}

/// An optional byte as a presence tag and the value (zero when absent).
pub open spec fn opt_bytes(value: Option<u8>) -> Seq<u8> {
    match value {
        Some(v) => seq![1u8, v],
        None => seq![0u8, 0u8],
    }
}

/// The optional byte encoded by `tag` and `value`, if the pair is canonical.
pub open spec fn opt_of(tag: u8, value: u8) -> Option<Option<u8>> {
    if tag == 0 && value == 0 {
        Some(None)
    } else if tag == 1 {
        Some(Some(value))
    } else {
        None
    }
}

/// The fifteen bytes of one SMART attribute.
pub open spec fn attr_bytes(a: SmartAttribute) -> Seq<u8> {
    seq![a.id] + le16(a.flags) + opt_bytes(a.current) + opt_bytes(a.worst) + a.raw@ + opt_bytes(
        a.threshold,
    )
}

/// The SMART attribute encoded at offset `o`, if its optional fields are canonical.
pub open spec fn attr_at(p: Seq<u8>, o: int) -> Option<SmartAttribute> {
    let current = opt_of(p[o + 3], p[o + 4]);
    let worst = opt_of(p[o + 5], p[o + 6]);
    let threshold = opt_of(p[o + 13], p[o + 14]);
    if current is None || worst is None || threshold is None {
        None
    } else {
        Some(
            SmartAttribute {
                id: p[o],
                flags: get_le16(p, o + 1),
                current: current.unwrap(),
                worst: worst.unwrap(),
                raw: [p[o + 7], p[o + 8], p[o + 9], p[o + 10], p[o + 11], p[o + 12]],
                threshold: threshold.unwrap(),
            },
        )
    }
}

/// Fixed-width records laid end to end: byte `i` is byte `i % w` of record `i / w`.
pub open spec fn attrs_bytes(s: Seq<SmartAttribute>) -> Seq<u8> {
    Seq::new(15 * s.len(), |i: int| attr_bytes(s[i / 15])[i % 15])
}

pub open spec fn threshold_bytes(s: Seq<(u8, u8)>) -> Seq<u8> {
    Seq::new(2 * s.len(), |i: int| if i % 2 == 0 { s[i / 2].0 } else { s[i / 2].1 })
}

pub open spec fn page_bytes(p: AtaLogPageSupport) -> Seq<u8> {
    seq![p.address] + le16(p.sectors)
}

pub open spec fn pages_bytes(s: Seq<AtaLogPageSupport>) -> Seq<u8> {
    Seq::new(3 * s.len(), |i: int| page_bytes(s[i / 3])[i % 3])
}

pub open spec fn medium_bytes(m: AtaMedium) -> Seq<u8> {
    match m {
        AtaMedium::Unknown => seq![0u8, 0u8, 0u8],
        AtaMedium::SolidState => seq![1u8, 0u8, 0u8],
        AtaMedium::RotationalRpm(rpm) => seq![2u8] + le16(rpm),
    }
}

pub open spec fn capacity_value(s: AtaIdentifySummary) -> u128 {
    match s.capacity_bytes {
        Some(c) => c,
        None => 0,
    }
}

pub open spec fn identify_bytes(s: AtaIdentifySummary) -> Seq<u8> {
    let c = capacity_value(s);
    seq![if s.capacity_bytes is Some { 1u8 } else { 0u8 }] + le64(c as u64) + le64((c >> 64u128) as u64)
        + medium_bytes(s.medium) + seq![
        (if s.smart_supported { 1u8 } else { 0u8 }) | (if s.general_purpose_logging_supported {
            2u8
        } else {
            0u8
        }),
    ]
}

pub open spec fn smart_status_code(s: SmartStatus) -> u8 {
    match s {
        SmartStatus::Passed => 0,
        SmartStatus::PredictingFailure => 1,
        SmartStatus::Unknown => 2,
    }
}

/// Whether a typed response belongs to an operation.
pub open spec fn payload_matches(operation: AtaBrokerOperation, r: BrokerAtaResponseView) -> bool {
    match (operation, r) {
        (AtaBrokerOperation::IdentifyDevice, BrokerAtaResponseView::Identify(_)) => true,
        (AtaBrokerOperation::SmartReadData, BrokerAtaResponseView::SmartData(_)) => true,
        (AtaBrokerOperation::SmartReadThresholds, BrokerAtaResponseView::SmartThresholds(_)) => true,
        (AtaBrokerOperation::SmartReturnStatus, BrokerAtaResponseView::SmartStatus(_)) => true,
        (AtaBrokerOperation::ReadGplDirectory, BrokerAtaResponseView::GplDirectory { .. }) => true,
        _ => false,
    }
}

/// The payload of a typed response, or why it cannot be sent.
pub open spec fn encode_payload_spec(operation: AtaBrokerOperation, r: BrokerAtaResponseView) -> Result<
    Seq<u8>,
    BrokerResponseWireError,
> {
    if !payload_matches(operation, r) {
        Err(BrokerResponseWireError::OperationPayloadMismatch)
    } else {
        match r {
            BrokerAtaResponseView::Identify(s) => Ok(identify_bytes(s)),
            BrokerAtaResponseView::SmartData(a) => if a.len() > MAX_SMART_ATTRIBUTES {
                Err(BrokerResponseWireError::PayloadTooLarge)
            } else {
                Ok(le16(a.len() as u16) + attrs_bytes(a))
            },
            BrokerAtaResponseView::SmartThresholds(t) => if t.len() > MAX_SMART_ATTRIBUTES {
                Err(BrokerResponseWireError::PayloadTooLarge)
            } else {
                Ok(le16(t.len() as u16) + threshold_bytes(t))
            },
            BrokerAtaResponseView::SmartStatus(s) => Ok(seq![smart_status_code(s)]),
            BrokerAtaResponseView::GplDirectory { version, pages } => if pages.len()
                > MAX_GPL_PAGES {
                Err(BrokerResponseWireError::PayloadTooLarge)
            } else {
                Ok(le16(version) + le16(pages.len() as u16) + pages_bytes(pages))
            },
        }
    }
}

pub open spec fn response_frame_bytes(request_id: u64, operation: AtaBrokerOperation, status: u8, payload: Seq<u8>) -> Seq<u8> {
    response_magic() + seq![BROKER_RESPONSE_WIRE_VERSION, operation_code(operation), status, 0u8]
        + le64(request_id) + le32(payload.len() as u32) + payload
}

/// What encoding a response frame yields.
pub open spec fn encode_response(f: BrokerResponseFrameView) -> Result<Seq<u8>, BrokerResponseWireError> {
    if f.request_id == 0 {
        Err(BrokerResponseWireError::InvalidRequestId)
    } else {
        match f.result {
            Err(e) => Ok(response_frame_bytes(f.request_id, f.operation, status_code(Some(e)), Seq::empty())),
            Ok(r) => match encode_payload_spec(f.operation, r) {
                Err(e) => Err(e),
                Ok(p) => Ok(response_frame_bytes(f.request_id, f.operation, 0, p)),
            },
        }
    }
}

/// The IDENTIFY summary encoded by a payload.
pub open spec fn decode_identify_spec(p: Seq<u8>) -> Result<BrokerAtaResponseView, BrokerResponseWireError> {
    if p.len() != 21 || p[0] > 1 {
        Err(BrokerResponseWireError::MalformedPayload)
    } else {
        let capacity = (get_le64(p, 1) as u128) | ((get_le64(p, 9) as u128) << 64u128);
        let rpm = get_le16(p, 18);
        let medium = if p[17] == 0 && rpm == 0 {
            Some(AtaMedium::Unknown)
        } else if p[17] == 1 && rpm == 0 {
            Some(AtaMedium::SolidState)
        } else if p[17] == 2 && rpm != 0 {
            Some(AtaMedium::RotationalRpm(rpm))
        } else {
            None
        };
        if medium is None || p[20] & 0xfcu8 != 0 {
            Err(BrokerResponseWireError::MalformedPayload)
        } else {
            Ok(
                BrokerAtaResponseView::Identify(
                    AtaIdentifySummary {
                        capacity_bytes: if p[0] == 1 { Some(capacity) } else { None },
                        medium: medium.unwrap(),
                        smart_supported: p[20] & 1u8 != 0,
                        general_purpose_logging_supported: p[20] & 2u8 != 0,
                    },
                ),
            )
        }
    }
}

pub open spec fn decode_smart_data_spec(p: Seq<u8>) -> Result<BrokerAtaResponseView, BrokerResponseWireError> {
    if p.len() < 2 {
        Err(BrokerResponseWireError::MalformedPayload)
    } else {
        let count = get_le16(p, 0) as int;
        if count > MAX_SMART_ATTRIBUTES || p.len() != 2 + 15 * count {
            Err(BrokerResponseWireError::MalformedPayload)
        } else if exists|k: int| 0 <= k < count && #[trigger] attr_at(p, 2 + 15 * k) is None {
            Err(BrokerResponseWireError::MalformedPayload)
        } else {
            Ok(
                BrokerAtaResponseView::SmartData(
                    Seq::new(count as nat, |k: int| attr_at(p, 2 + 15 * k).unwrap()),
                ),
            )
        }
    }
}

pub open spec fn decode_thresholds_spec(p: Seq<u8>) -> Result<BrokerAtaResponseView, BrokerResponseWireError> {
    if p.len() < 2 {
        Err(BrokerResponseWireError::MalformedPayload)
    } else {
        let count = get_le16(p, 0) as int;
        if count > MAX_SMART_ATTRIBUTES || p.len() != 2 + 2 * count {
            Err(BrokerResponseWireError::MalformedPayload)
        } else {
            Ok(
                BrokerAtaResponseView::SmartThresholds(
                    Seq::new(count as nat, |k: int| (p[2 + 2 * k], p[3 + 2 * k])),
                ),
            )
        }
    }
}

pub open spec fn decode_smart_status_spec(p: Seq<u8>) -> Result<BrokerAtaResponseView, BrokerResponseWireError> {
    if p.len() != 1 || p[0] > 2 {
        Err(BrokerResponseWireError::MalformedPayload)
    } else {
        Ok(
            BrokerAtaResponseView::SmartStatus(
                if p[0] == 0 {
                    SmartStatus::Passed
                } else if p[0] == 1 {
                    SmartStatus::PredictingFailure
                } else {
                    SmartStatus::Unknown
                },
            ),
        )
    }
}

pub open spec fn decode_gpl_spec(p: Seq<u8>) -> Result<BrokerAtaResponseView, BrokerResponseWireError> {
    if p.len() < 4 {
        Err(BrokerResponseWireError::MalformedPayload)
    } else {
        let count = get_le16(p, 2) as int;
        if count > MAX_GPL_PAGES || p.len() != 4 + 3 * count {
            Err(BrokerResponseWireError::MalformedPayload)
        } else {
            Ok(
                BrokerAtaResponseView::GplDirectory {
                    version: get_le16(p, 0),
                    pages: Seq::new(
                        count as nat,
                        |k: int|
                            AtaLogPageSupport {
                                address: p[4 + 3 * k],
                                sectors: get_le16(p, 5 + 3 * k),
                            },
                    ),
                },
            )
        }
    }
}

pub open spec fn decode_payload_spec(operation: AtaBrokerOperation, p: Seq<u8>) -> Result<
    BrokerAtaResponseView,
    BrokerResponseWireError,
> {
    match operation {
        AtaBrokerOperation::IdentifyDevice => decode_identify_spec(p),
        AtaBrokerOperation::SmartReadData => decode_smart_data_spec(p),
        AtaBrokerOperation::SmartReadThresholds => decode_thresholds_spec(p),
        AtaBrokerOperation::SmartReturnStatus => decode_smart_status_spec(p),
        AtaBrokerOperation::ReadGplDirectory => decode_gpl_spec(p),
    }
}

/// What decoding a response frame yields.
pub open spec fn decode_response(f: Seq<u8>) -> Result<BrokerResponseFrameView, BrokerResponseWireError> {
    if f.len() < RESPONSE_HEADER_LEN {
        Err(BrokerResponseWireError::FrameTooShort)
    } else if f.len() > MAX_RESPONSE_FRAME_LEN {
        Err(BrokerResponseWireError::FrameTooLarge)
    } else if f.subrange(0, 4) != response_magic() {
        Err(BrokerResponseWireError::InvalidMagic)
    } else if f[4] != BROKER_RESPONSE_WIRE_VERSION {
        Err(BrokerResponseWireError::UnsupportedVersion)
    } else if f[7] != 0 {
        Err(BrokerResponseWireError::NonZeroReserved)
    } else if operation_of_code(f[5]) is None {
        Err(BrokerResponseWireError::UnknownOperation)
    } else if status_of_code(f[6]) is None {
        Err(BrokerResponseWireError::UnknownStatus)
    } else if get_le64(f, 8) == 0 {
        Err(BrokerResponseWireError::InvalidRequestId)
    } else if get_le32(f, 16) > MAX_PAYLOAD_LEN {
        Err(BrokerResponseWireError::PayloadTooLarge)
    } else if f.len() != RESPONSE_HEADER_LEN + get_le32(f, 16) {
        Err(BrokerResponseWireError::TrailingOrMissingBytes)
    } else {
        let operation = operation_of_code(f[5]).unwrap();
        let payload = f.subrange(20, f.len() as int);
        match status_of_code(f[6]).unwrap() {
            Some(error) => if payload.len() != 0 {
                Err(BrokerResponseWireError::UnexpectedErrorPayload)
            } else {
                Ok(
                    BrokerResponseFrameView {
                        request_id: get_le64(f, 8),
                        operation,
                        result: Err(error),
                    },
                )
            },
            None => match decode_payload_spec(operation, payload) {
                Err(e) => Err(e),
                Ok(r) => Ok(
                    BrokerResponseFrameView {
                        request_id: get_le64(f, 8),
                        operation,
                        result: Ok(r),
                    },
                ),
            },
        }
    }
}

fn encode_status(error: Option<BrokerResponseError>) -> (c: u8)
    ensures
        c == status_code(error),
{
    match error {
        None => 0,
        Some(BrokerResponseError::InvalidRequest) => 1,
        Some(BrokerResponseError::AuthorizationDenied) => 2,
        Some(BrokerResponseError::DeviceUnavailable) => 3,
        Some(BrokerResponseError::ExecutionFailed) => 4,
    }
}

fn decode_status(code: u8) -> (r: Option<Option<BrokerResponseError>>)
    ensures
        r == status_of_code(code),
{
    if code == 0 {
        Some(None)
    } else if code == 1 {
        Some(Some(BrokerResponseError::InvalidRequest))
    } else if code == 2 {
        Some(Some(BrokerResponseError::AuthorizationDenied))
    } else if code == 3 {
        Some(Some(BrokerResponseError::DeviceUnavailable))
    } else if code == 4 {
        Some(Some(BrokerResponseError::ExecutionFailed))
    } else {
        None
    }
}

fn push_optional_u8(payload: &mut Vec<u8>, value: Option<u8>)
    ensures
        final(payload)@ == old(payload)@ + opt_bytes(value),
{
    match value {
        Some(v) => {
            payload.push(1);
            payload.push(v);
        },
        None => {
            payload.push(0);
            payload.push(0);
        },
    }
    assert(final(payload)@ =~= old(payload)@ + opt_bytes(value));
}

fn read_optional_u8(tag: u8, value: u8) -> (r: Option<Option<u8>>)
    ensures
        r == opt_of(tag, value),
{
    if tag == 0 && value == 0 {
        Some(None)
    } else if tag == 1 {
        Some(Some(value))
    } else {
        None
    }
}

/// Record `i / w` and byte `i % w` of a layout of `w`-byte records.
proof fn lemma_record_index(i: int, k: int, w: int)
    requires
        w > 0,
        0 <= i < w * (k + 1),
    ensures
        i < w * k ==> 0 <= i / w < k,
        i >= w * k ==> i / w == k && i % w == i - w * k,
        0 <= i % w < w,
{
    assert(i < w * k ==> 0 <= i / w < k) by (nonlinear_arith)
        requires
            w > 0,
            0 <= i,
    ;
    assert(i >= w * k ==> i / w == k && i % w == i - w * k) by (nonlinear_arith)
        requires
            w > 0,
            0 <= i < w * (k + 1),
    ;
    assert(0 <= i % w < w) by (nonlinear_arith)
        requires
            w > 0,
    ;
}

proof fn lemma_record_offset(k: int, j: int, w: int)
    requires
        w > 0,
        0 <= k,
        0 <= j < w,
    ensures
        (w * k + j) / w == k,
        (w * k + j) % w == j,
{
    assert((w * k + j) / w == k && (w * k + j) % w == j) by (nonlinear_arith)
        requires
            w > 0,
            0 <= k,
            0 <= j < w,
    ;
}

fn encode_payload(operation: AtaBrokerOperation, response: &BrokerAtaResponse) -> (r: Result<
    Vec<u8>,
    BrokerResponseWireError,
>)
    ensures
        encode_payload_spec(operation, response@) matches Ok(p) ==> (r matches Ok(v) && v@ == p),
        encode_payload_spec(operation, response@) matches Err(e) ==> r == Err::<
            Vec<u8>,
            BrokerResponseWireError,
        >(e),
{
    let matches = match (operation, response) {
        (AtaBrokerOperation::IdentifyDevice, BrokerAtaResponse::Identify(_)) => true,
        (AtaBrokerOperation::SmartReadData, BrokerAtaResponse::SmartData(_)) => true,
        (AtaBrokerOperation::SmartReadThresholds, BrokerAtaResponse::SmartThresholds(_)) => true,
        (AtaBrokerOperation::SmartReturnStatus, BrokerAtaResponse::SmartStatus(_)) => true,
        (AtaBrokerOperation::ReadGplDirectory, BrokerAtaResponse::GplDirectory(_)) => true,
        _ => false,
    };
    if !matches {
        return Err(BrokerResponseWireError::OperationPayloadMismatch);
    }
    let mut payload: Vec<u8> = Vec::new();
    match response {
        BrokerAtaResponse::Identify(identify) => {
            let capacity: u128 = match identify.capacity_bytes {
                Some(c) => c,
                None => 0,
            };
            payload.push(if identify.capacity_bytes.is_some() { 1 } else { 0 });
            push_le64(&mut payload, capacity as u64);
            push_le64(&mut payload, (capacity >> 64u128) as u64);
            match identify.medium {
                AtaMedium::Unknown => {
                    payload.push(0);
                    payload.push(0);
                    payload.push(0);
                },
                AtaMedium::SolidState => {
                    payload.push(1);
                    payload.push(0);
                    payload.push(0);
                },
                AtaMedium::RotationalRpm(rpm) => {
                    payload.push(2);
                    push_le16(&mut payload, rpm);
                },
            }
            let smart: u8 = if identify.smart_supported { 1 } else { 0 };
            let gpl: u8 = if identify.general_purpose_logging_supported { 2 } else { 0 };
            payload.push(smart | gpl);
            assert(payload@ =~= identify_bytes(*identify));
        },
        BrokerAtaResponse::SmartData(attributes) => {
            if attributes.len() > MAX_SMART_ATTRIBUTES {
                return Err(BrokerResponseWireError::PayloadTooLarge);
            }
            push_le16(&mut payload, attributes.len() as u16);
            let ghost head = payload@;
            let mut k: usize = 0;
            while k < attributes.len()
                invariant
                    k <= attributes@.len(),
                    attributes@.len() <= MAX_SMART_ATTRIBUTES,
                    payload@ == head + attrs_bytes(attributes@.take(k as int)),
                decreases attributes@.len() - k,
            {
                let a = attributes[k];
                let ghost before = payload@;
                payload.push(a.id);
                push_le16(&mut payload, a.flags);
                push_optional_u8(&mut payload, a.current);
                push_optional_u8(&mut payload, a.worst);
                push_bytes(&mut payload, array_as_slice(&a.raw));
                push_optional_u8(&mut payload, a.threshold);
                proof {
                    let s0 = attributes@.take(k as int);
                    let s1 = attributes@.take(k + 1);
                    assert(payload@ =~= before + attr_bytes(a));
                    assert forall|i: int| 0 <= i < 15 * (k + 1) implies #[trigger] attrs_bytes(s1)[i]
                        == (attrs_bytes(s0) + attr_bytes(a))[i] by {
                        lemma_record_index(i, k as int, 15);
                        if i >= 15 * k {
                            assert(s1[i / 15] == a);
                        } else {
                            assert(s1[i / 15] == s0[i / 15]);
                        }
                    }
                    assert(attrs_bytes(s1) =~= attrs_bytes(s0) + attr_bytes(a));
                }
                k = k + 1;
            }
            assert(attributes@.take(attributes@.len() as int) =~= attributes@);
        },
        BrokerAtaResponse::SmartThresholds(thresholds) => {
            if thresholds.len() > MAX_SMART_ATTRIBUTES {
                return Err(BrokerResponseWireError::PayloadTooLarge);
            }
            push_le16(&mut payload, thresholds.len() as u16);
            let ghost head = payload@;
            let mut k: usize = 0;
            while k < thresholds.len()
                invariant
                    k <= thresholds@.len(),
                    thresholds@.len() <= MAX_SMART_ATTRIBUTES,
                    payload@ == head + threshold_bytes(thresholds@.take(k as int)),
                decreases thresholds@.len() - k,
            {
                let (id, threshold) = thresholds[k];
                payload.push(id);
                payload.push(threshold);
                proof {
                    let s0 = thresholds@.take(k as int);
                    let s1 = thresholds@.take(k + 1);
                    assert forall|i: int| 0 <= i < 2 * (k + 1) implies #[trigger] threshold_bytes(
                        s1,
                    )[i] == (threshold_bytes(s0) + seq![id, threshold])[i] by {
                        lemma_record_index(i, k as int, 2);
                        if i < 2 * k {
                            assert(s1[i / 2] == s0[i / 2]);
                        }
                    }
                    assert(threshold_bytes(s1) =~= threshold_bytes(s0) + seq![id, threshold]);
                }
                k = k + 1;
            }
            assert(thresholds@.take(thresholds@.len() as int) =~= thresholds@);
        },
        BrokerAtaResponse::SmartStatus(status) => {
            payload.push(
                match status {
                    SmartStatus::Passed => 0,
                    SmartStatus::PredictingFailure => 1,
                    SmartStatus::Unknown => 2,
                },
            );
            assert(payload@ =~= seq![smart_status_code(*status)]);
        },
        BrokerAtaResponse::GplDirectory(directory) => {
            if directory.supported_pages.len() > MAX_GPL_PAGES {
                return Err(BrokerResponseWireError::PayloadTooLarge);
            }
            push_le16(&mut payload, directory.version);
            push_le16(&mut payload, directory.supported_pages.len() as u16);
            let ghost head = payload@;
            let pages = &directory.supported_pages;
            let mut k: usize = 0;
            while k < pages.len()
                invariant
                    k <= pages@.len(),
                    pages@.len() <= MAX_GPL_PAGES,
                    payload@ == head + pages_bytes(pages@.take(k as int)),
                decreases pages@.len() - k,
            {
                let page = pages[k];
                let ghost before = payload@;
                payload.push(page.address);
                push_le16(&mut payload, page.sectors);
                proof {
                    let s0 = pages@.take(k as int);
                    let s1 = pages@.take(k + 1);
                    assert(payload@ =~= before + page_bytes(page));
                    assert forall|i: int| 0 <= i < 3 * (k + 1) implies #[trigger] pages_bytes(s1)[i]
                        == (pages_bytes(s0) + page_bytes(page))[i] by {
                        lemma_record_index(i, k as int, 3);
                        if i >= 3 * k {
                            assert(s1[i / 3] == page);
                        } else {
                            assert(s1[i / 3] == s0[i / 3]);
                        }
                    }
                    assert(pages_bytes(s1) =~= pages_bytes(s0) + page_bytes(page));
                }
                k = k + 1;
            }
            assert(pages@.take(pages@.len() as int) =~= pages@);
        },
    }
    Ok(payload)
}

/// Encodes a response frame. Error results carry no payload.
pub fn encode_response_frame(response: &BrokerResponseFrame) -> (r: Result<
    Vec<u8>,
    BrokerResponseWireError,
>)
    ensures
        encode_response(response@) matches Ok(f) ==> (r matches Ok(v) && v@ == f),
        encode_response(response@) matches Err(e) ==> r == Err::<Vec<u8>, BrokerResponseWireError>(
            e,
        ),
{
    if response.request_id == 0 {
        return Err(BrokerResponseWireError::InvalidRequestId);
    }
    let payload = match &response.result {
        Ok(value) => encode_payload(response.operation, value)?,
        Err(_) => Vec::new(),
    };
    proof {
        lemma_payload_bounded(response.operation, response@.result);
    }
    if payload.len() > MAX_PAYLOAD_LEN {
        return Err(BrokerResponseWireError::PayloadTooLarge);
    }
    let status = match &response.result {
        Ok(_) => encode_status(None),
        Err(e) => encode_status(Some(*e)),
    };
    let mut frame: Vec<u8> = Vec::new();
    frame.push(0x56);
    frame.push(0x57);
    frame.push(0x52);
    frame.push(0x31);
    frame.push(BROKER_RESPONSE_WIRE_VERSION);
    frame.push(encode_operation(response.operation));
    frame.push(status);
    frame.push(0);
    push_le64(&mut frame, response.request_id);
    push_le32(&mut frame, payload.len() as u32);
    push_bytes(&mut frame, payload.as_slice());
    assert(frame@ =~= response_frame_bytes(response.request_id, response.operation, status, payload@));
    Ok(frame)
}

/// Every payload that can be encoded fits the frame limit.
proof fn lemma_payload_bounded(operation: AtaBrokerOperation, result: Result<BrokerAtaResponseView, BrokerResponseError>)
    ensures
        result matches Ok(r) ==> (encode_payload_spec(operation, r) matches Ok(p) ==> p.len() <= MAX_PAYLOAD_LEN),
{
    if let Ok(r) = result {
        if let Ok(p) = encode_payload_spec(operation, r) {
            match r {
                BrokerAtaResponseView::SmartData(a) => {
                    assert(15 * a.len() <= 15 * 64) by (nonlinear_arith)
                        requires
                            a.len() <= 64,
                    ;
                },
                BrokerAtaResponseView::SmartThresholds(t) => {},
                BrokerAtaResponseView::GplDirectory { version, pages } => {},
                _ => {},
            }
        }
    }
}

fn decode_identify(payload: &[u8]) -> (r: Result<BrokerAtaResponse, BrokerResponseWireError>)
    ensures
        decode_identify_spec(payload@) matches Ok(v) ==> (r matches Ok(x) && x@ == v),
        decode_identify_spec(payload@) matches Err(e) ==> r == Err::<
            BrokerAtaResponse,
            BrokerResponseWireError,
        >(e),
{
    if payload.len() != 21 || payload[0] > 1 {
        return Err(BrokerResponseWireError::MalformedPayload);
    }
    let capacity: u128 = (read_le64(payload, 1) as u128) | ((read_le64(payload, 9) as u128)
        << 64u128);
    let rpm = read_le16(payload, 18);
    let medium = if payload[17] == 0 && rpm == 0 {
        AtaMedium::Unknown
    } else if payload[17] == 1 && rpm == 0 {
        AtaMedium::SolidState
    } else if payload[17] == 2 && rpm != 0 {
        AtaMedium::RotationalRpm(rpm)
    } else {
        return Err(BrokerResponseWireError::MalformedPayload);
    };
    if payload[20] & 0xfc != 0 {
        return Err(BrokerResponseWireError::MalformedPayload);
    }
    Ok(
        BrokerAtaResponse::Identify(
            AtaIdentifySummary {
                capacity_bytes: if payload[0] == 1 {
                    Some(capacity)
                } else {
                    None
                },
                medium,
                smart_supported: payload[20] & 1 != 0,
                general_purpose_logging_supported: payload[20] & 2 != 0,
            },
        ),
    )
}

fn decode_smart_data(payload: &[u8]) -> (r: Result<BrokerAtaResponse, BrokerResponseWireError>)
    ensures
        decode_smart_data_spec(payload@) matches Ok(v) ==> (r matches Ok(x) && x@ == v),
        decode_smart_data_spec(payload@) matches Err(e) ==> r == Err::<
            BrokerAtaResponse,
            BrokerResponseWireError,
        >(e),
{
    if payload.len() < 2 {
        return Err(BrokerResponseWireError::MalformedPayload);
    }
    let count = read_le16(payload, 0) as usize;
    if count > MAX_SMART_ATTRIBUTES || payload.len() != 2 + count * 15 {
        return Err(BrokerResponseWireError::MalformedPayload);
    }
    let mut attributes: Vec<SmartAttribute> = Vec::new();
    let mut k: usize = 0;
    while k < count
        invariant
            k <= count,
            count <= MAX_SMART_ATTRIBUTES,
            payload@.len() == 2 + 15 * count,
            count == get_le16(payload@, 0) as int,
            attributes@.len() == k,
            forall|j: int| 0 <= j < k ==> #[trigger] attr_at(payload@, 2 + 15 * j) is Some,
            forall|j: int|
                0 <= j < k ==> attributes@[j] == #[trigger] attr_at(payload@, 2 + 15 * j).unwrap(),
        decreases count - k,
    {
        let o = 2 + 15 * k;
        let current = read_optional_u8(payload[o + 3], payload[o + 4]);
        let worst = read_optional_u8(payload[o + 5], payload[o + 6]);
        let threshold = read_optional_u8(payload[o + 13], payload[o + 14]);
        match (current, worst, threshold) {
            (Some(current), Some(worst), Some(threshold)) => {
                attributes.push(
                    SmartAttribute {
                        id: payload[o],
                        flags: read_le16(payload, o + 1),
                        current,
                        worst,
                        raw: [
                            payload[o + 7],
                            payload[o + 8],
                            payload[o + 9],
                            payload[o + 10],
                            payload[o + 11],
                            payload[o + 12],
                        ],
                        threshold,
                    },
                );
            },
            _ => {
                assert(attr_at(payload@, 2 + 15 * k) is None);
                return Err(BrokerResponseWireError::MalformedPayload);
            },
        }
        k = k + 1;
    }
    assert(attributes@ =~= Seq::new(count as nat, |j: int| attr_at(payload@, 2 + 15 * j).unwrap()));
    Ok(BrokerAtaResponse::SmartData(attributes))
}

fn decode_thresholds(payload: &[u8]) -> (r: Result<BrokerAtaResponse, BrokerResponseWireError>)
    ensures
        decode_thresholds_spec(payload@) matches Ok(v) ==> (r matches Ok(x) && x@ == v),
        decode_thresholds_spec(payload@) matches Err(e) ==> r == Err::<
            BrokerAtaResponse,
            BrokerResponseWireError,
        >(e),
{
    if payload.len() < 2 {
        return Err(BrokerResponseWireError::MalformedPayload);
    }
    let count = read_le16(payload, 0) as usize;
    if count > MAX_SMART_ATTRIBUTES || payload.len() != 2 + count * 2 {
        return Err(BrokerResponseWireError::MalformedPayload);
    }
    let mut thresholds: Vec<(u8, u8)> = Vec::new();
    let mut k: usize = 0;
    while k < count
        invariant
            k <= count,
            count <= MAX_SMART_ATTRIBUTES,
            payload@.len() == 2 + 2 * count,
            thresholds@ =~= Seq::new(k as nat, |j: int| (payload@[2 + 2 * j], payload@[3 + 2 * j])),
        decreases count - k,
    {
        thresholds.push((payload[2 + 2 * k], payload[3 + 2 * k]));
        k = k + 1;
    }
    Ok(BrokerAtaResponse::SmartThresholds(thresholds))
}

fn decode_smart_status(payload: &[u8]) -> (r: Result<BrokerAtaResponse, BrokerResponseWireError>)
    ensures
        decode_smart_status_spec(payload@) matches Ok(v) ==> (r matches Ok(x) && x@ == v),
        decode_smart_status_spec(payload@) matches Err(e) ==> r == Err::<
            BrokerAtaResponse,
            BrokerResponseWireError,
        >(e),
{
    if payload.len() != 1 || payload[0] > 2 {
        return Err(BrokerResponseWireError::MalformedPayload);
    }
    let status = if payload[0] == 0 {
        SmartStatus::Passed
    } else if payload[0] == 1 {
        SmartStatus::PredictingFailure
    } else {
        SmartStatus::Unknown
    };
    Ok(BrokerAtaResponse::SmartStatus(status))
}

fn decode_gpl_directory(payload: &[u8]) -> (r: Result<BrokerAtaResponse, BrokerResponseWireError>)
    ensures
        decode_gpl_spec(payload@) matches Ok(v) ==> (r matches Ok(x) && x@ == v),
        decode_gpl_spec(payload@) matches Err(e) ==> r == Err::<
            BrokerAtaResponse,
            BrokerResponseWireError,
        >(e),
{
    if payload.len() < 4 {
        return Err(BrokerResponseWireError::MalformedPayload);
    }
    let version = read_le16(payload, 0);
    let count = read_le16(payload, 2) as usize;
    if count > MAX_GPL_PAGES || payload.len() != 4 + count * 3 {
        return Err(BrokerResponseWireError::MalformedPayload);
    }
    let mut pages: Vec<AtaLogPageSupport> = Vec::new();
    let mut k: usize = 0;
    while k < count
        invariant
            k <= count,
            count <= MAX_GPL_PAGES,
            payload@.len() == 4 + 3 * count,
            pages@ =~= Seq::new(
                k as nat,
                |j: int|
                    AtaLogPageSupport {
                        address: payload@[4 + 3 * j],
                        sectors: get_le16(payload@, 5 + 3 * j),
                    },
            ),
        decreases count - k,
    {
        pages.push(
            AtaLogPageSupport {
                address: payload[4 + 3 * k],
                sectors: read_le16(payload, 5 + 3 * k),
            },
        );
        k = k + 1;
    }
    Ok(BrokerAtaResponse::GplDirectory(AtaLogDirectory { version, supported_pages: pages }))
}

fn decode_payload(operation: AtaBrokerOperation, payload: &[u8]) -> (r: Result<
    BrokerAtaResponse,
    BrokerResponseWireError,
>)
    ensures
        decode_payload_spec(operation, payload@) matches Ok(v) ==> (r matches Ok(x) && x@ == v),
        decode_payload_spec(operation, payload@) matches Err(e) ==> r == Err::<
            BrokerAtaResponse,
            BrokerResponseWireError,
        >(e),
{
    match operation {
        AtaBrokerOperation::IdentifyDevice => decode_identify(payload),
        AtaBrokerOperation::SmartReadData => decode_smart_data(payload),
        AtaBrokerOperation::SmartReadThresholds => decode_thresholds(payload),
        AtaBrokerOperation::SmartReturnStatus => decode_smart_status(payload),
        AtaBrokerOperation::ReadGplDirectory => decode_gpl_directory(payload),
    }
}

/// Decodes and validates a response frame.
pub fn decode_response_frame(frame: &[u8]) -> (r: Result<BrokerResponseFrame, BrokerResponseWireError>)
    ensures
        decode_response(frame@) matches Ok(v) ==> (r matches Ok(x) && x@ == v),
        decode_response(frame@) matches Err(e) ==> r == Err::<
            BrokerResponseFrame,
            BrokerResponseWireError,
        >(e),
{
    if frame.len() < RESPONSE_HEADER_LEN {
        return Err(BrokerResponseWireError::FrameTooShort);
    }
    if frame.len() > MAX_RESPONSE_FRAME_LEN {
        return Err(BrokerResponseWireError::FrameTooLarge);
    }
    if !(frame[0] == 0x56 && frame[1] == 0x57 && frame[2] == 0x52 && frame[3] == 0x31) {
        proof {
            if frame@.subrange(0, 4) == response_magic() {
                assert(frame@.subrange(0, 4)[0] == frame@[0]);
                assert(frame@.subrange(0, 4)[1] == frame@[1]);
                assert(frame@.subrange(0, 4)[2] == frame@[2]);
                assert(frame@.subrange(0, 4)[3] == frame@[3]);
            }
        }
        return Err(BrokerResponseWireError::InvalidMagic);
    }
    assert(frame@.subrange(0, 4) =~= response_magic());
    if frame[4] != BROKER_RESPONSE_WIRE_VERSION {
        return Err(BrokerResponseWireError::UnsupportedVersion);
    }
    if frame[7] != 0 {
        return Err(BrokerResponseWireError::NonZeroReserved);
    }
    let operation = match decode_operation(frame[5]) {
        Some(operation) => operation,
        None => {
            return Err(BrokerResponseWireError::UnknownOperation);
        },
    };
    let status = match decode_status(frame[6]) {
        Some(status) => status,
        None => {
            return Err(BrokerResponseWireError::UnknownStatus);
        },
    };
    let request_id = read_le64(frame, 8);
    if request_id == 0 {
        return Err(BrokerResponseWireError::InvalidRequestId);
    }
    let payload_len = read_le32(frame, 16) as usize;
    if payload_len > MAX_PAYLOAD_LEN {
        return Err(BrokerResponseWireError::PayloadTooLarge);
    }
    if frame.len() != RESPONSE_HEADER_LEN + payload_len {
        return Err(BrokerResponseWireError::TrailingOrMissingBytes);
    }
    let payload = slice_from(frame, RESPONSE_HEADER_LEN);
    let result = match status {
        Some(error) => {
            if payload.len() != 0 {
                return Err(BrokerResponseWireError::UnexpectedErrorPayload);
            }
            Err(error)
        },
        None => Ok(decode_payload(operation, payload)?),
    };
    Ok(BrokerResponseFrame { request_id, operation, result })
}

/// Length of the header that `response_frame_len` reads first.
pub fn response_header_len() -> (n: usize)
    ensures
        n == RESPONSE_HEADER_LEN,
{
    RESPONSE_HEADER_LEN
}

/// The total frame length announced by a response header, when the payload
/// length it declares is within the limit.
pub fn response_frame_len(header: &[u8]) -> (r: Result<usize, BrokerResponseWireError>)
    ensures
        header@.len() != RESPONSE_HEADER_LEN ==> r == Err::<usize, BrokerResponseWireError>(
            BrokerResponseWireError::FrameTooShort,
        ),
        header@.len() == RESPONSE_HEADER_LEN ==> (if get_le32(header@, 16) > MAX_PAYLOAD_LEN {
            r == Err::<usize, BrokerResponseWireError>(BrokerResponseWireError::PayloadTooLarge)
        } else {
            r == Ok::<usize, BrokerResponseWireError>(
                (RESPONSE_HEADER_LEN + get_le32(header@, 16)) as usize,
            )
        }),
{
    if header.len() != RESPONSE_HEADER_LEN {
        return Err(BrokerResponseWireError::FrameTooShort);
    }
    let payload_len = read_le32(header, 16) as usize;
    if payload_len > MAX_PAYLOAD_LEN {
        return Err(BrokerResponseWireError::PayloadTooLarge);
    }
    Ok(RESPONSE_HEADER_LEN + payload_len)
}

/// A typed response that can be sent for an operation: it belongs to the
/// operation, its collections are within their limits, and a rotational
/// medium has a non-zero rate.
pub open spec fn response_well_formed(operation: AtaBrokerOperation, r: BrokerAtaResponseView) -> bool {
    &&& payload_matches(operation, r)
    &&& match r {
        BrokerAtaResponseView::Identify(s) => s.medium != AtaMedium::RotationalRpm(0),
        BrokerAtaResponseView::SmartData(a) => a.len() <= MAX_SMART_ATTRIBUTES,
        BrokerAtaResponseView::SmartThresholds(t) => t.len() <= MAX_SMART_ATTRIBUTES,
        BrokerAtaResponseView::SmartStatus(_) => true,
        BrokerAtaResponseView::GplDirectory { version, pages } => pages.len() <= MAX_GPL_PAGES,
    }
}

proof fn lemma_flag_byte(a: bool, b: bool)
    ensures
        ({
            let x = (if a { 1u8 } else { 0u8 }) | (if b { 2u8 } else { 0u8 });
            x & 0xfcu8 == 0 && (x & 1u8 != 0) == a && (x & 2u8 != 0) == b
        }),
{
    assert((0u8 | 0u8) & 0xfcu8 == 0 && (0u8 | 0u8) & 1u8 == 0 && (0u8 | 0u8) & 2u8 == 0)
        by (bit_vector);
    assert((1u8 | 0u8) & 0xfcu8 == 0 && (1u8 | 0u8) & 1u8 != 0 && (1u8 | 0u8) & 2u8 == 0)
        by (bit_vector);
    assert((0u8 | 2u8) & 0xfcu8 == 0 && (0u8 | 2u8) & 1u8 == 0 && (0u8 | 2u8) & 2u8 != 0)
        by (bit_vector);
    assert((1u8 | 2u8) & 0xfcu8 == 0 && (1u8 | 2u8) & 1u8 != 0 && (1u8 | 2u8) & 2u8 != 0)
        by (bit_vector);
}

proof fn lemma_u128_halves(c: u128)
    ensures
        ((c as u64) as u128) | ((((c >> 64u128) as u64) as u128) << 64u128) == c,
{
    assert(((c as u64) as u128) | ((((c >> 64u128) as u64) as u128) << 64u128) == c)
        by (bit_vector);
}

proof fn lemma_le64_bytes(x: u64)
    ensures
        u64_of(le64(x)[0], le64(x)[1], le64(x)[2], le64(x)[3], le64(x)[4], le64(x)[5], le64(x)[6], le64(x)[7]) == x,
{
    lemma_le64_inverse(x, le64(x));
}

proof fn lemma_attr_round_trip(a: SmartAttribute, p: Seq<u8>, o: int)
    requires
        0 <= o,
        o + 15 <= p.len(),
        p.subrange(o, o + 15) == attr_bytes(a),
    ensures
        attr_at(p, o) == Some(a),
{
    let b = attr_bytes(a);
    let q = p.subrange(o, o + 15);
    assert(q[0] == p[o] && q[1] == p[o + 1] && q[2] == p[o + 2] && q[3] == p[o + 3]);
    assert(q[4] == p[o + 4] && q[5] == p[o + 5] && q[6] == p[o + 6] && q[7] == p[o + 7]);
    assert(q[8] == p[o + 8] && q[9] == p[o + 9] && q[10] == p[o + 10] && q[11] == p[o + 11]);
    assert(q[12] == p[o + 12] && q[13] == p[o + 13] && q[14] == p[o + 14]);
    lemma_le16_inverse(a.flags, 0, 0);
    let raw = [p[o + 7], p[o + 8], p[o + 9], p[o + 10], p[o + 11], p[o + 12]];
    assert(raw@ =~= a.raw@);
    assert(raw == a.raw);
}

proof fn lemma_identify_round_trip(s: AtaIdentifySummary)
    requires
        s.medium != AtaMedium::RotationalRpm(0),
    ensures
        decode_identify_spec(identify_bytes(s)) == Ok::<BrokerAtaResponseView, BrokerResponseWireError>(
            BrokerAtaResponseView::Identify(s),
        ),
{
    let p = identify_bytes(s);
    let c = capacity_value(s);
    lemma_le64_bytes(c as u64);
    lemma_le64_bytes((c >> 64u128) as u64);
    lemma_u128_halves(c);
    lemma_flag_byte(s.smart_supported, s.general_purpose_logging_supported);
    assert(p.len() == 21);
    assert(get_le64(p, 1) == c as u64);
    assert(get_le64(p, 9) == (c >> 64u128) as u64);
    match s.medium {
        AtaMedium::RotationalRpm(rpm) => {
            lemma_le16_inverse(rpm, 0, 0);
            assert(get_le16(p, 18) == rpm);
        },
        _ => {
            assert(u16_of(0, 0) == 0) by (bit_vector);
            assert(get_le16(p, 18) == 0);
        },
    }
}

proof fn lemma_attrs_index(a: Seq<SmartAttribute>, k: int, j: int)
    requires
        0 <= k < a.len(),
        0 <= j < 15,
    ensures
        15 * k + j < 15 * a.len(),
        attrs_bytes(a)[15 * k + j] == attr_bytes(a[k])[j],
{
    lemma_record_offset(k, j, 15);
    assert(15 * k + j < 15 * a.len()) by (nonlinear_arith)
        requires
            k < a.len(),
            j < 15,
    ;
}

#[verifier::spinoff_prover]
#[verifier::rlimit(60)]
proof fn lemma_smart_entry_bytes(a: Seq<SmartAttribute>, k: int)
    requires
        a.len() <= MAX_SMART_ATTRIBUTES,
        0 <= k < a.len(),
    ensures
        2 + 15 * k + 15 <= (le16(a.len() as u16) + attrs_bytes(a)).len(),
        (le16(a.len() as u16) + attrs_bytes(a)).subrange(2 + 15 * k, 2 + 15 * k + 15) =~= attr_bytes(a[k]),
{
    let p = le16(a.len() as u16) + attrs_bytes(a);
    let n = a.len();
    assert(15 * k + 15 <= 15 * n) by (nonlinear_arith)
        requires
            k < n,
    ;
    let q = p.subrange(2 + 15 * k, 2 + 15 * k + 15);
    assert forall|j: int| 0 <= j < 15 implies #[trigger] q[j] == attr_bytes(a[k])[j] by {
        lemma_attrs_index(a, k, j);
        assert(q[j] == p[2 + 15 * k + j]);
        assert(p[2 + 15 * k + j] == attrs_bytes(a)[15 * k + j]);
    }
}

#[verifier::spinoff_prover]
proof fn lemma_smart_data_entry(a: Seq<SmartAttribute>, k: int)
    requires
        a.len() <= MAX_SMART_ATTRIBUTES,
        0 <= k < a.len(),
    ensures
        attr_at(le16(a.len() as u16) + attrs_bytes(a), 2 + 15 * k) == Some(a[k]),
{
    let p = le16(a.len() as u16) + attrs_bytes(a);
    lemma_smart_entry_bytes(a, k);
    lemma_attr_round_trip(a[k], p, 2 + 15 * k);
}

proof fn lemma_smart_data_round_trip(a: Seq<SmartAttribute>)
    requires
        a.len() <= MAX_SMART_ATTRIBUTES,
    ensures
        decode_smart_data_spec(le16(a.len() as u16) + attrs_bytes(a)) == Ok::<
            BrokerAtaResponseView,
            BrokerResponseWireError,
        >(BrokerAtaResponseView::SmartData(a)),
{
    let p = le16(a.len() as u16) + attrs_bytes(a);
    let n = a.len();
    lemma_le16_inverse(n as u16, 0, 0);
    assert(get_le16(p, 0) as int == n);
    assert forall|k: int| 0 <= k < n implies #[trigger] attr_at(p, 2 + 15 * k) == Some(a[k]) by {
        lemma_smart_data_entry(a, k);
    }
    let d = Seq::new(n as nat, |k: int| attr_at(p, 2 + 15 * k).unwrap());
    assert(d =~= a);
}

proof fn lemma_thresholds_round_trip(t: Seq<(u8, u8)>)
    requires
        t.len() <= MAX_SMART_ATTRIBUTES,
    ensures
        decode_thresholds_spec(le16(t.len() as u16) + threshold_bytes(t)) == Ok::<
            BrokerAtaResponseView,
            BrokerResponseWireError,
        >(BrokerAtaResponseView::SmartThresholds(t)),
{
    let p = le16(t.len() as u16) + threshold_bytes(t);
    let n = t.len();
    lemma_le16_inverse(n as u16, 0, 0);
    assert(get_le16(p, 0) as int == n);
    let d = Seq::new(n as nat, |k: int| (p[2 + 2 * k], p[3 + 2 * k]));
    assert forall|k: int| 0 <= k < n implies #[trigger] d[k] == t[k] by {
        lemma_record_offset(k, 0, 2);
        lemma_record_offset(k, 1, 2);
        assert(p[2 + 2 * k] == threshold_bytes(t)[2 * k]);
        assert(p[3 + 2 * k] == threshold_bytes(t)[2 * k + 1]);
    }
    assert(d =~= t);
}

proof fn lemma_gpl_round_trip(version: u16, pages: Seq<AtaLogPageSupport>)
    requires
        pages.len() <= MAX_GPL_PAGES,
    ensures
        decode_gpl_spec(le16(version) + le16(pages.len() as u16) + pages_bytes(pages)) == Ok::<
            BrokerAtaResponseView,
            BrokerResponseWireError,
        >(BrokerAtaResponseView::GplDirectory { version, pages }),
{
    let p = le16(version) + le16(pages.len() as u16) + pages_bytes(pages);
    let n = pages.len();
    lemma_le16_inverse(version, 0, 0);
    lemma_le16_inverse(n as u16, 0, 0);
    assert(get_le16(p, 0) == version);
    assert(get_le16(p, 2) as int == n);
    let d = Seq::new(
        n as nat,
        |k: int| AtaLogPageSupport { address: p[4 + 3 * k], sectors: get_le16(p, 5 + 3 * k) },
    );
    assert forall|k: int| 0 <= k < n implies #[trigger] d[k] == pages[k] by {
        lemma_record_offset(k, 0, 3);
        lemma_record_offset(k, 1, 3);
        lemma_record_offset(k, 2, 3);
        assert(p[4 + 3 * k] == pages_bytes(pages)[3 * k]);
        assert(p[5 + 3 * k] == pages_bytes(pages)[3 * k + 1]);
        assert(p[6 + 3 * k] == pages_bytes(pages)[3 * k + 2]);
        lemma_le16_inverse(pages[k].sectors, 0, 0);
    }
    assert(d =~= pages);
}

proof fn lemma_payload_round_trip(operation: AtaBrokerOperation, r: BrokerAtaResponseView)
    requires
        response_well_formed(operation, r),
    ensures
        encode_payload_spec(operation, r) is Ok,
        encode_payload_spec(operation, r).unwrap().len() <= MAX_PAYLOAD_LEN,
        decode_payload_spec(operation, encode_payload_spec(operation, r).unwrap()) == Ok::<
            BrokerAtaResponseView,
            BrokerResponseWireError,
        >(r),
{
    lemma_payload_bounded(operation, Ok(r));
    match r {
        BrokerAtaResponseView::Identify(s) => lemma_identify_round_trip(s),
        BrokerAtaResponseView::SmartData(a) => lemma_smart_data_round_trip(a),
        BrokerAtaResponseView::SmartThresholds(t) => lemma_thresholds_round_trip(t),
        BrokerAtaResponseView::SmartStatus(st) => {},
        BrokerAtaResponseView::GplDirectory { version, pages } => lemma_gpl_round_trip(
            version,
            pages,
        ),
    }
}

/// Every response the broker can send survives an encode/decode round trip:
/// a frame with a non-zero request id whose result is an error or a
/// well-formed typed response for its operation.
pub proof fn lemma_response_round_trip(f: BrokerResponseFrameView)
    requires
        f.request_id != 0,
        f.result matches Ok(r) ==> response_well_formed(f.operation, r),
    ensures
        encode_response(f) is Ok,
        decode_response(encode_response(f).unwrap()) == Ok::<
            BrokerResponseFrameView,
            BrokerResponseWireError,
        >(f),
{
    let (status, payload) = match f.result {
        Err(e) => (status_code(Some(e)), Seq::<u8>::empty()),
        Ok(r) => {
            lemma_payload_round_trip(f.operation, r);
            (0u8, encode_payload_spec(f.operation, r).unwrap())
        },
    };
    let bytes = response_frame_bytes(f.request_id, f.operation, status, payload);
    assert(encode_response(f) == Ok::<Seq<u8>, BrokerResponseWireError>(bytes));
    lemma_le64_bytes(f.request_id);
    lemma_le32_inverse(payload.len() as u32, 0, 0, 0, 0);
    assert(bytes.subrange(0, 4) =~= response_magic());
    assert(get_le64(bytes, 8) == f.request_id);
    assert(get_le32(bytes, 16) as int == payload.len());
    assert(bytes.subrange(20, bytes.len() as int) =~= payload);
    assert(operation_of_code(bytes[5]) == Some(f.operation));
    match f.result {
        Err(e) => {
            assert(status_of_code(bytes[6]) == Some(Some(e)));
        },
        Ok(r) => {
            assert(status_of_code(bytes[6]) == Some(None::<BrokerResponseError>));
        },
    }
    assert(decode_response(bytes) =~~= Ok::<BrokerResponseFrameView, BrokerResponseWireError>(f));
}

proof fn lemma_decoded_payload_well_formed(operation: AtaBrokerOperation, p: Seq<u8>)
    requires
        decode_payload_spec(operation, p) is Ok,
    ensures
        response_well_formed(operation, decode_payload_spec(operation, p).unwrap()),
{
}

/// Whatever a frame decodes to can be encoded again, and the new frame
/// decodes to the same response.
pub proof fn lemma_decoded_response_reencodes(bytes: Seq<u8>)
    requires
        decode_response(bytes) is Ok,
    ensures
        encode_response(decode_response(bytes).unwrap()) is Ok,
        decode_response(encode_response(decode_response(bytes).unwrap()).unwrap()) == decode_response(
            bytes,
        ),
{
    let v = decode_response(bytes).unwrap();
    if let Ok(r) = v.result {
        lemma_decoded_payload_well_formed(v.operation, bytes.subrange(20, bytes.len() as int));
    }
    lemma_response_round_trip(v);
}

} // verus!
