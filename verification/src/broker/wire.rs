//! Request frames of the broker protocol and the per-connection session that
//! authenticates the peer and rejects replayed request ids.
use vstd::prelude::*;
use vstd::string::*;
use vstd::utf8::*;

use super::{
    valid_device_id, valid_device_id_text, AtaBrokerOperation, BrokerDeviceRef, BrokerGeneration,
    BrokerRequest, BrokerRequestView, MAX_DEVICE_ID_LEN,
};
use crate::text::str_from_utf8;

verus! {

broadcast use vstd::utf8::encode_utf8_valid_utf8, vstd::utf8::encode_utf8_decode_utf8, vstd::utf8::decode_utf8_encode_utf8;

pub const BROKER_WIRE_VERSION: u8 = 1;

pub const REQUEST_HEADER_LEN: usize = 34;

pub const MAX_REQUEST_FRAME_LEN: usize = 162;

#[derive(Debug, Clone, Copy, PartialEq, Eq, Structural)]
pub enum BrokerWireError {
    FrameTooShort,
    FrameTooLarge,
    InvalidMagic,
    UnsupportedVersion,
    NonZeroReserved,
    UnknownOperation,
    InvalidNodeLength,
    TrailingOrMissingBytes,
    InvalidNodeEncoding,
    InvalidRequest,
    UnauthorizedPeer,
    ReplayedOrOutOfOrder,
}

/// The four magic bytes "VWB1" that open every request frame.
pub open spec fn request_magic() -> Seq<u8> {
    seq![0x56u8, 0x57u8, 0x42u8, 0x31u8]
}

pub open spec fn le16(x: u16) -> Seq<u8> {
    seq![x as u8, (x >> 8u16) as u8]
}

pub open spec fn le32(x: u32) -> Seq<u8> {
    seq![x as u8, (x >> 8u32) as u8, (x >> 16u32) as u8, (x >> 24u32) as u8]
}

pub open spec fn le64(x: u64) -> Seq<u8> {
    seq![
        x as u8,
        (x >> 8u64) as u8,
        (x >> 16u64) as u8,
        (x >> 24u64) as u8,
        (x >> 32u64) as u8,
        (x >> 40u64) as u8,
        (x >> 48u64) as u8,
        (x >> 56u64) as u8,
    ]
}

pub open spec fn u16_of(b0: u8, b1: u8) -> u16 {
    (b0 as u16) | ((b1 as u16) << 8u16)
}

pub open spec fn u32_of(b0: u8, b1: u8, b2: u8, b3: u8) -> u32 {
    (b0 as u32) | ((b1 as u32) << 8u32) | ((b2 as u32) << 16u32) | ((b3 as u32) << 24u32)
}

pub open spec fn u64_of(b0: u8, b1: u8, b2: u8, b3: u8, b4: u8, b5: u8, b6: u8, b7: u8) -> u64 {
    (b0 as u64) | ((b1 as u64) << 8u64) | ((b2 as u64) << 16u64) | ((b3 as u64) << 24u64) | ((
    b4 as u64) << 32u64) | ((b5 as u64) << 40u64) | ((b6 as u64) << 48u64) | ((b7 as u64)
        << 56u64)
}

/// Little-endian 16-bit value at `o`.
pub open spec fn get_le16(s: Seq<u8>, o: int) -> u16 {
    u16_of(s[o], s[o + 1])
}

/// Little-endian 32-bit value at `o`.
pub open spec fn get_le32(s: Seq<u8>, o: int) -> u32 {
    u32_of(s[o], s[o + 1], s[o + 2], s[o + 3])
}

/// Little-endian 64-bit value at `o`.
pub open spec fn get_le64(s: Seq<u8>, o: int) -> u64 {
    u64_of(s[o], s[o + 1], s[o + 2], s[o + 3], s[o + 4], s[o + 5], s[o + 6], s[o + 7])
}

pub proof fn lemma_le16_inverse(x: u16, b0: u8, b1: u8)
    ensures
        u16_of(x as u8, (x >> 8u16) as u8) == x,
        le16(u16_of(b0, b1)) == seq![b0, b1],
{
    assert(u16_of(x as u8, (x >> 8u16) as u8) == x) by (bit_vector);
    let v = u16_of(b0, b1);
    assert(v as u8 == b0 && (v >> 8u16) as u8 == b1) by (bit_vector)
        requires
            v == (b0 as u16) | ((b1 as u16) << 8u16),
    ;
    assert(le16(v) =~= seq![b0, b1]);
}

pub proof fn lemma_le32_inverse(x: u32, b0: u8, b1: u8, b2: u8, b3: u8)
    ensures
        u32_of(x as u8, (x >> 8u32) as u8, (x >> 16u32) as u8, (x >> 24u32) as u8) == x,
        le32(u32_of(b0, b1, b2, b3)) == seq![b0, b1, b2, b3],
{
    assert(u32_of(x as u8, (x >> 8u32) as u8, (x >> 16u32) as u8, (x >> 24u32) as u8) == x)
        by (bit_vector);
    let v = u32_of(b0, b1, b2, b3);
    assert(v as u8 == b0 && (v >> 8u32) as u8 == b1 && (v >> 16u32) as u8 == b2 && (v >> 24u32)
        as u8 == b3) by (bit_vector)
        requires
            v == (b0 as u32) | ((b1 as u32) << 8u32) | ((b2 as u32) << 16u32) | ((b3 as u32)
                << 24u32),
    ;
    assert(le32(v) =~= seq![b0, b1, b2, b3]);
}

pub proof fn lemma_le64_inverse(x: u64, b: Seq<u8>)
    requires
        b.len() == 8,
    ensures
        u64_of(
            x as u8,
            (x >> 8u64) as u8,
            (x >> 16u64) as u8,
            (x >> 24u64) as u8,
            (x >> 32u64) as u8,
            (x >> 40u64) as u8,
            (x >> 48u64) as u8,
            (x >> 56u64) as u8,
        ) == x,
        le64(u64_of(b[0], b[1], b[2], b[3], b[4], b[5], b[6], b[7])) == b,
{
    assert(u64_of(
        x as u8,
        (x >> 8u64) as u8,
        (x >> 16u64) as u8,
        (x >> 24u64) as u8,
        (x >> 32u64) as u8,
        (x >> 40u64) as u8,
        (x >> 48u64) as u8,
        (x >> 56u64) as u8,
    ) == x) by (bit_vector);
    let (b0, b1, b2, b3, b4, b5, b6, b7) = (b[0], b[1], b[2], b[3], b[4], b[5], b[6], b[7]);
    let v = u64_of(b0, b1, b2, b3, b4, b5, b6, b7);
    assert(v as u8 == b0 && (v >> 8u64) as u8 == b1 && (v >> 16u64) as u8 == b2 && (v >> 24u64)
        as u8 == b3 && (v >> 32u64) as u8 == b4 && (v >> 40u64) as u8 == b5 && (v >> 48u64) as u8
        == b6 && (v >> 56u64) as u8 == b7) by (bit_vector)
        requires
            v == (b0 as u64) | ((b1 as u64) << 8u64) | ((b2 as u64) << 16u64) | ((b3 as u64)
                << 24u64) | ((b4 as u64) << 32u64) | ((b5 as u64) << 40u64) | ((b6 as u64)
                << 48u64) | ((b7 as u64) << 56u64),
    ;
    assert(le64(v) =~= b);
}

pub open spec fn operation_code(operation: AtaBrokerOperation) -> u8 {
    match operation {
        AtaBrokerOperation::IdentifyDevice => 1,
        AtaBrokerOperation::SmartReadData => 2,
        AtaBrokerOperation::SmartReadThresholds => 3,
        AtaBrokerOperation::SmartReturnStatus => 4,
        AtaBrokerOperation::ReadGplDirectory => 5,
    }
}

pub open spec fn operation_of_code(code: u8) -> Option<AtaBrokerOperation> {
    if code == 1 {
        Some(AtaBrokerOperation::IdentifyDevice)
    } else if code == 2 {
        Some(AtaBrokerOperation::SmartReadData)
    } else if code == 3 {
        Some(AtaBrokerOperation::SmartReadThresholds)
    } else if code == 4 {
        Some(AtaBrokerOperation::SmartReturnStatus)
    } else if code == 5 {
        Some(AtaBrokerOperation::ReadGplDirectory)
    } else {
        None
    }
}

pub(crate) fn encode_operation(operation: AtaBrokerOperation) -> (c: u8)
    ensures
        c == operation_code(operation),
        operation_of_code(c) == Some(operation),
{
    match operation {
        AtaBrokerOperation::IdentifyDevice => 1,
        AtaBrokerOperation::SmartReadData => 2,
        AtaBrokerOperation::SmartReadThresholds => 3,
        AtaBrokerOperation::SmartReturnStatus => 4,
        AtaBrokerOperation::ReadGplDirectory => 5,
    }
}

pub(crate) fn decode_operation(code: u8) -> (r: Option<AtaBrokerOperation>)
    ensures
        r == operation_of_code(code),
        r matches Some(op) ==> operation_code(op) == code,
{
    if code == 1 {
        Some(AtaBrokerOperation::IdentifyDevice)
    } else if code == 2 {
        Some(AtaBrokerOperation::SmartReadData)
    } else if code == 3 {
        Some(AtaBrokerOperation::SmartReadThresholds)
    } else if code == 4 {
        Some(AtaBrokerOperation::SmartReturnStatus)
    } else if code == 5 {
        Some(AtaBrokerOperation::ReadGplDirectory)
    } else {
        None
    }
}

/// The frame of a request: magic, version, operation, two reserved zero
/// bytes, then little-endian request id, diskseq, device major and minor,
/// node id length, and the node id bytes.
pub open spec fn request_frame(r: BrokerRequestView) -> Seq<u8> {
    request_magic() + seq![BROKER_WIRE_VERSION, operation_code(r.operation), 0u8, 0u8] + le64(
        r.request_id,
    ) + le64(r.generation.diskseq) + le32(r.generation.dev_major) + le32(r.generation.dev_minor)
        + le16(encode_utf8(r.node_id).len() as u16) + encode_utf8(r.node_id)
}

/// What encoding a request yields.
pub open spec fn encode_request(r: BrokerRequestView) -> Result<Seq<u8>, BrokerWireError> {
    if r.request_id == 0 || !valid_device_id_text(r.node_id) {
        Err(BrokerWireError::InvalidRequest)
    } else {
        Ok(request_frame(r))
    }
}

/// What decoding a frame yields.
pub open spec fn decode_request(f: Seq<u8>) -> Result<BrokerRequestView, BrokerWireError> {
    if f.len() < REQUEST_HEADER_LEN {
        Err(BrokerWireError::FrameTooShort)
    } else if f.len() > MAX_REQUEST_FRAME_LEN {
        Err(BrokerWireError::FrameTooLarge)
    } else if f.subrange(0, 4) != request_magic() {
        Err(BrokerWireError::InvalidMagic)
    } else if f[4] != BROKER_WIRE_VERSION {
        Err(BrokerWireError::UnsupportedVersion)
    } else if f[6] != 0 || f[7] != 0 {
        Err(BrokerWireError::NonZeroReserved)
    } else if operation_of_code(f[5]) is None {
        Err(BrokerWireError::UnknownOperation)
    } else {
        let node_len = get_le16(f, 32) as int;
        let node = f.subrange(34, f.len() as int);
        if node_len == 0 || node_len > MAX_DEVICE_ID_LEN {
            Err(BrokerWireError::InvalidNodeLength)
        } else if f.len() != REQUEST_HEADER_LEN + node_len {
            Err(BrokerWireError::TrailingOrMissingBytes)
        } else if !valid_utf8(node) {
            Err(BrokerWireError::InvalidNodeEncoding)
        } else if get_le64(f, 8) == 0 || !valid_device_id_text(decode_utf8(node)) {
            Err(BrokerWireError::InvalidRequest)
        } else {
            Ok(
                BrokerRequestView {
                    request_id: get_le64(f, 8),
                    node_id: decode_utf8(node),
                    generation: BrokerGeneration {
                        diskseq: get_le64(f, 16),
                        dev_major: get_le32(f, 24),
                        dev_minor: get_le32(f, 28),
                    },
                    operation: operation_of_code(f[5]).unwrap(),
                },
            )
        }
    }
}

pub(crate) fn push_le16(v: &mut Vec<u8>, x: u16)
    ensures
        final(v)@ == old(v)@ + le16(x),
{
    v.push(x as u8);
    v.push((x >> 8u16) as u8);
    assert(final(v)@ =~= old(v)@ + le16(x));
}

pub(crate) fn push_le32(v: &mut Vec<u8>, x: u32)
    ensures
        final(v)@ == old(v)@ + le32(x),
{
    v.push(x as u8);
    v.push((x >> 8u32) as u8);
    v.push((x >> 16u32) as u8);
    v.push((x >> 24u32) as u8);
    assert(final(v)@ =~= old(v)@ + le32(x));
}

pub(crate) fn push_le64(v: &mut Vec<u8>, x: u64)
    ensures
        final(v)@ == old(v)@ + le64(x),
{
    v.push(x as u8);
    v.push((x >> 8u64) as u8);
    v.push((x >> 16u64) as u8);
    v.push((x >> 24u64) as u8);
    v.push((x >> 32u64) as u8);
    v.push((x >> 40u64) as u8);
    v.push((x >> 48u64) as u8);
    v.push((x >> 56u64) as u8);
    assert(final(v)@ =~= old(v)@ + le64(x));
}

pub(crate) fn push_bytes(v: &mut Vec<u8>, bytes: &[u8])
    ensures
        final(v)@ == old(v)@ + bytes@,
{
    let mut i: usize = 0;
    while i < bytes.len()
        invariant
            i <= bytes@.len(),
            v@ == old(v)@ + bytes@.take(i as int),
        decreases bytes@.len() - i,
    {
        v.push(bytes[i]);
        assert(bytes@.take(i + 1) =~= bytes@.take(i as int).push(bytes@[i as int]));
        i = i + 1;
    }
    assert(bytes@.take(bytes@.len() as int) =~= bytes@);
}

pub(crate) fn read_le16(s: &[u8], o: usize) -> (x: u16)
    requires
        o + 2 <= s@.len(),
    ensures
        x == get_le16(s@, o as int),
{
    (s[o] as u16) | ((s[o + 1] as u16) << 8u16)
}

pub(crate) fn read_le32(s: &[u8], o: usize) -> (x: u32)
    requires
        o + 4 <= s@.len(),
    ensures
        x == get_le32(s@, o as int),
{
    (s[o] as u32) | ((s[o + 1] as u32) << 8u32) | ((s[o + 2] as u32) << 16u32) | ((s[o
        + 3] as u32) << 24u32)
}

pub(crate) fn read_le64(s: &[u8], o: usize) -> (x: u64)
    requires
        o + 8 <= s@.len(),
    ensures
        x == get_le64(s@, o as int),
{
    (s[o] as u64) | ((s[o + 1] as u64) << 8u64) | ((s[o + 2] as u64) << 16u64) | ((s[o
        + 3] as u64) << 24u64) | ((s[o + 4] as u64) << 32u64) | ((s[o + 5] as u64) << 40u64) | ((
    s[o + 6] as u64) << 48u64) | ((s[o + 7] as u64) << 56u64)
}

/// Encodes a request into a frame. Only a request with a non-zero id and a
/// valid device id can be encoded.
pub fn encode_request_frame(request: &BrokerRequest) -> (r: Result<Vec<u8>, BrokerWireError>)
    ensures
        encode_request(request@) matches Ok(f) ==> (r matches Ok(v) && v@ == f),
        encode_request(request@) matches Err(e) ==> r == Err::<Vec<u8>, BrokerWireError>(e),
{
    if request.request_id == 0 || !valid_device_id(request.device.node_id.as_str()) {
        return Err(BrokerWireError::InvalidRequest);
    }
    let node = request.device.node_id.as_str().as_bytes();
    let node_len = node.len() as u16;
    let mut frame: Vec<u8> = Vec::new();
    frame.push(0x56);
    frame.push(0x57);
    frame.push(0x42);
    frame.push(0x31);
    frame.push(BROKER_WIRE_VERSION);
    frame.push(encode_operation(request.operation));
    frame.push(0);
    frame.push(0);
    push_le64(&mut frame, request.request_id);
    push_le64(&mut frame, request.device.generation.diskseq);
    push_le32(&mut frame, request.device.generation.dev_major);
    push_le32(&mut frame, request.device.generation.dev_minor);
    push_le16(&mut frame, node_len);
    push_bytes(&mut frame, node);
    assert(frame@ =~= request_frame(request@));
    Ok(frame)
}

/// Decodes and validates a request frame.
pub fn decode_request_frame(frame: &[u8]) -> (r: Result<BrokerRequest, BrokerWireError>)
    ensures
        decode_request(frame@) matches Ok(v) ==> (r matches Ok(req) && req@ == v),
        decode_request(frame@) matches Err(e) ==> r == Err::<BrokerRequest, BrokerWireError>(e),
{
    if frame.len() < REQUEST_HEADER_LEN {
        return Err(BrokerWireError::FrameTooShort);
    }
    if frame.len() > MAX_REQUEST_FRAME_LEN {
        return Err(BrokerWireError::FrameTooLarge);
    }
    if !(frame[0] == 0x56 && frame[1] == 0x57 && frame[2] == 0x42 && frame[3] == 0x31) {
        proof {
            if frame@.subrange(0, 4) == request_magic() {
                assert(frame@.subrange(0, 4)[0] == frame@[0]);
                assert(frame@.subrange(0, 4)[1] == frame@[1]);
                assert(frame@.subrange(0, 4)[2] == frame@[2]);
                assert(frame@.subrange(0, 4)[3] == frame@[3]);
            }
        }
        return Err(BrokerWireError::InvalidMagic);
    }
    assert(frame@.subrange(0, 4) =~= request_magic());
    if frame[4] != BROKER_WIRE_VERSION {
        return Err(BrokerWireError::UnsupportedVersion);
    }
    if frame[6] != 0 || frame[7] != 0 {
        return Err(BrokerWireError::NonZeroReserved);
    }
    let operation = match decode_operation(frame[5]) {
        Some(operation) => operation,
        None => {
            return Err(BrokerWireError::UnknownOperation);
        },
    };
    let request_id = read_le64(frame, 8);
    let diskseq = read_le64(frame, 16);
    let dev_major = read_le32(frame, 24);
    let dev_minor = read_le32(frame, 28);
    let node_len = read_le16(frame, 32) as usize;
    if node_len == 0 || node_len > MAX_DEVICE_ID_LEN {
        return Err(BrokerWireError::InvalidNodeLength);
    }
    if frame.len() != REQUEST_HEADER_LEN + node_len {
        return Err(BrokerWireError::TrailingOrMissingBytes);
    }
    let node_bytes = slice_from(frame, REQUEST_HEADER_LEN);
    let node_id = match str_from_utf8(node_bytes) {
        Some(text) => text,
        None => {
            return Err(BrokerWireError::InvalidNodeEncoding);
        },
    };
    if request_id == 0 || !valid_device_id(node_id) {
        return Err(BrokerWireError::InvalidRequest);
    }
    Ok(
        BrokerRequest {
            request_id,
            device: BrokerDeviceRef {
                node_id: node_id.to_owned(),
                generation: BrokerGeneration { diskseq, dev_major, dev_minor },
            },
            operation,
        },
    )
}

/// The bytes of `s` from `start` on.
pub(crate) fn slice_from(s: &[u8], start: usize) -> (r: &[u8])
    requires
        start <= s@.len(),
    ensures
        r@ == s@.subrange(start as int, s@.len() as int),
{
    let (_, tail) = s.split_at(start);
    tail
}

/// Length of the header that `request_frame_len` reads first.
pub fn request_header_len() -> (n: usize)
    ensures
        n == REQUEST_HEADER_LEN,
{
    REQUEST_HEADER_LEN
}

/// The total length of the frame announced by a request header, when the
/// node id length it declares is acceptable.
pub fn request_frame_len(header: &[u8]) -> (r: Result<usize, BrokerWireError>)
    ensures
        header@.len() != REQUEST_HEADER_LEN ==> r == Err::<usize, BrokerWireError>(
            BrokerWireError::FrameTooShort,
        ),
        header@.len() == REQUEST_HEADER_LEN ==> ({
            let node_len = get_le16(header@, 32) as int;
            if node_len == 0 || node_len > MAX_DEVICE_ID_LEN {
                r == Err::<usize, BrokerWireError>(BrokerWireError::InvalidNodeLength)
            } else {
                r == Ok::<usize, BrokerWireError>((REQUEST_HEADER_LEN + node_len) as usize)
            }
        }),
{
    if header.len() != REQUEST_HEADER_LEN {
        return Err(BrokerWireError::FrameTooShort);
    }
    let node_len = read_le16(header, 32) as usize;
    if node_len == 0 || node_len > MAX_DEVICE_ID_LEN {
        return Err(BrokerWireError::InvalidNodeLength);
    }
    Ok(REQUEST_HEADER_LEN + node_len)
}

/// Every valid request survives an encode/decode round trip unchanged.
pub proof fn lemma_request_round_trip(r: BrokerRequestView)
    requires
        r.request_id != 0,
        valid_device_id_text(r.node_id),
    ensures
        encode_request(r) == Ok::<Seq<u8>, BrokerWireError>(request_frame(r)),
        decode_request(request_frame(r)) == Ok::<BrokerRequestView, BrokerWireError>(r),
{
    let f = request_frame(r);
    let node = encode_utf8(r.node_id);
    let n = node.len();
    assert(n <= 128);
    lemma_le64_inverse(r.request_id, le64(r.request_id));
    lemma_le64_inverse(r.generation.diskseq, le64(r.generation.diskseq));
    lemma_le32_inverse(r.generation.dev_major, 0, 0, 0, 0);
    lemma_le32_inverse(r.generation.dev_minor, 0, 0, 0, 0);
    lemma_le16_inverse(n as u16, 0, 0);
    assert(f.len() == 34 + n);
    assert(f.subrange(0, 4) =~= request_magic());
    assert(f.subrange(34, f.len() as int) =~= node);
    assert(get_le64(f, 8) == r.request_id);
    assert(get_le64(f, 16) == r.generation.diskseq);
    assert(get_le32(f, 24) == r.generation.dev_major);
    assert(get_le32(f, 28) == r.generation.dev_minor);
    assert(get_le16(f, 32) == n as u16);
    assert(operation_of_code(f[5]) == Some(r.operation));
}

/// A frame that decodes is exactly the encoding of what it decodes to, so
/// re-encoding a decoded request gives the same frame back.
pub proof fn lemma_decoded_request_reencodes(f: Seq<u8>)
    requires
        decode_request(f) is Ok,
    ensures
        encode_request(decode_request(f).unwrap()) == Ok::<Seq<u8>, BrokerWireError>(f),
{
    let r = decode_request(f).unwrap();
    let node = f.subrange(34, f.len() as int);
    assert(encode_utf8(r.node_id) == node);
    lemma_le64_inverse(0, f.subrange(8, 16));
    lemma_le64_inverse(0, f.subrange(16, 24));
    lemma_le32_inverse(0, f[24], f[25], f[26], f[27]);
    lemma_le32_inverse(0, f[28], f[29], f[30], f[31]);
    lemma_le16_inverse(0, f[32], f[33]);
    assert(get_le64(f, 8) == u64_of(
        f.subrange(8, 16)[0],
        f.subrange(8, 16)[1],
        f.subrange(8, 16)[2],
        f.subrange(8, 16)[3],
        f.subrange(8, 16)[4],
        f.subrange(8, 16)[5],
        f.subrange(8, 16)[6],
        f.subrange(8, 16)[7],
    ));
    assert(get_le64(f, 16) == u64_of(
        f.subrange(16, 24)[0],
        f.subrange(16, 24)[1],
        f.subrange(16, 24)[2],
        f.subrange(16, 24)[3],
        f.subrange(16, 24)[4],
        f.subrange(16, 24)[5],
        f.subrange(16, 24)[6],
        f.subrange(16, 24)[7],
    ));
    assert(node.len() == get_le16(f, 32) as int);
    assert(f.subrange(0, 4) == request_magic());
    assert(f[0] == f.subrange(0, 4)[0] && f[1] == f.subrange(0, 4)[1] && f[2] == f.subrange(
        0,
        4,
    )[2] && f[3] == f.subrange(0, 4)[3]);
    assert(request_frame(r) =~= f);
}

#[derive(Debug, Clone, Copy, PartialEq, Eq, Structural)]
pub struct BrokerPeerCredentials {
    pub uid: u32,
    pub gid: u32,
    pub pid: u32,
}

#[derive(Debug, Clone, Copy, PartialEq, Eq, Structural)]
pub struct BrokerPeerPolicy {
    pub allowed_uid: u32,
    pub allowed_gid: u32,
}

/// A peer is accepted when it has a real process id and exactly the allowed
/// user and group.
pub open spec fn peer_accepted(policy: BrokerPeerPolicy, credentials: BrokerPeerCredentials) -> bool {
    credentials.pid != 0 && credentials.uid == policy.allowed_uid && credentials.gid
        == policy.allowed_gid
}

impl BrokerPeerPolicy {
    pub fn accepts(self, credentials: BrokerPeerCredentials) -> (r: bool)
        ensures
            r == peer_accepted(self, credentials),
    {
        credentials.pid != 0 && credentials.uid == self.allowed_uid && credentials.gid
            == self.allowed_gid
    }
}

/// One authenticated connection. Request ids must strictly increase.
#[derive(Debug, Clone, PartialEq, Eq)]
pub struct BrokerSession {
    peer: BrokerPeerCredentials,
    last_request_id: u64,
}

impl BrokerSession {
    /// The highest request id accepted so far (0 before any).
    pub closed spec fn last_accepted(&self) -> u64 {
        self.last_request_id
    }

    /// The authenticated peer.
    pub closed spec fn peer_of(&self) -> BrokerPeerCredentials {
        self.peer
    }

    /// Opens a session for an accepted peer.
    pub fn new(policy: BrokerPeerPolicy, peer: BrokerPeerCredentials) -> (r: Result<
        Self,
        BrokerWireError,
    >)
        ensures
            !peer_accepted(policy, peer) ==> r == Err::<Self, BrokerWireError>(
                BrokerWireError::UnauthorizedPeer,
            ),
            peer_accepted(policy, peer) ==> (r matches Ok(s) && s.peer_of() == peer
                && s.last_accepted() == 0),
    {
        if !policy.accepts(peer) {
            return Err(BrokerWireError::UnauthorizedPeer);
        }
        Ok(BrokerSession { peer, last_request_id: 0 })
    }

    pub fn peer(&self) -> (p: BrokerPeerCredentials)
        ensures
            p == self.peer_of(),
    {
        self.peer
    }

    /// Decodes the next frame of the session. A request id not greater than
    /// every id accepted before is refused and leaves the session unchanged.
    pub fn decode_next(&mut self, frame: &[u8]) -> (r: Result<BrokerRequest, BrokerWireError>)
        ensures
            final(self).peer_of() == old(self).peer_of(),
            decode_request(frame@) matches Err(e) ==> (r == Err::<BrokerRequest, BrokerWireError>(
                e,
            ) && final(self).last_accepted() == old(self).last_accepted()),
            decode_request(frame@) matches Ok(v) ==> (if v.request_id <= old(self).last_accepted() {
                r == Err::<BrokerRequest, BrokerWireError>(BrokerWireError::ReplayedOrOutOfOrder)
                    && final(self).last_accepted() == old(self).last_accepted()
            } else {
                r matches Ok(req) && req@ == v && final(self).last_accepted() == v.request_id
            }),
            r matches Ok(req) ==> old(self).last_accepted() < req.request_id && final(self).last_accepted() == req.request_id,
    {
        let request = decode_request_frame(frame)?;
        if request.request_id <= self.last_request_id {
            return Err(BrokerWireError::ReplayedOrOutOfOrder);
        }
        self.last_request_id = request.request_id;
        Ok(request)
    }
}

} // verus!
