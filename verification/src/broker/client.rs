//! The client side of the broker protocol: request ids, the exchange
//! deadline, and the checks a response must pass before it is believed.
//!
//! The socket itself is driven by the caller.
use vstd::prelude::*;

use super::response::{decode_response, decode_response_frame, BrokerResponseError, BrokerResponseFrameView, BrokerResponseWireError};
use super::wire::{encode_request, encode_request_frame, BrokerWireError};
use super::{operation_timeout_secs, AtaBrokerOperation, BrokerAtaResponse, BrokerDeviceRef, BrokerRequest, BrokerRequestView};
use crate::timing::{TimeSpan, NANOS_PER_SEC};

verus! {

/// `std::io::ErrorKind`, carried through unchanged.
#[verifier::external_type_specification]
#[verifier::external_body]
pub struct ExIoErrorKind(std::io::ErrorKind);

/// Grace on top of an operation's own timeout for the transport.
pub const TRANSPORT_GRACE_SECS: u64 = 1;

pub const CONNECT_TIMEOUT_SECS: u64 = 2;

#[derive(Debug, Clone, Copy, PartialEq, Eq)]
pub enum BrokerClientError {
    Connect(std::io::ErrorKind),
    UnauthorizedServer,
    RequestIdExhausted,
    EncodeRequest(BrokerWireError),
    Transport(std::io::ErrorKind),
    TimedOut,
    InvalidResponse(BrokerResponseWireError),
    MismatchedResponse,
    ServerDenied(BrokerResponseError),
    ConnectionClosed,
}

/// A request ready to be written: its frame, and the id the client will use
/// next.
pub struct PreparedRequest {
    pub request_id: u64,
    pub operation: AtaBrokerOperation,
    pub frame: Vec<u8>,
    pub next_request_id: u64,
}

/// Builds the next request of a session. Ids start at 1 and strictly
/// increase; the last id of `u64` is never used, so that a successor always
/// exists.
pub fn prepare_request(next_request_id: u64, device: BrokerDeviceRef, operation: AtaBrokerOperation) -> (r:
    Result<PreparedRequest, BrokerClientError>)
    ensures
        next_request_id == u64::MAX ==> r matches Err(BrokerClientError::RequestIdExhausted),
        next_request_id < u64::MAX ==> match encode_request(
            BrokerRequestView {
                request_id: next_request_id,
                node_id: device.node_id@,
                generation: device.generation,
                operation,
            },
        ) {
            Err(e) => r matches Err(BrokerClientError::EncodeRequest(e2)) && e2 == e,
            Ok(bytes) => r matches Ok(p) && p.request_id == next_request_id && p.operation
                == operation && p.frame@ == bytes && p.next_request_id == next_request_id + 1,
        },
{
    if next_request_id == 0xffff_ffff_ffff_ffff {
        return Err(BrokerClientError::RequestIdExhausted);
    }
    let request = BrokerRequest { request_id: next_request_id, device, operation };
    match encode_request_frame(&request) {
        Ok(frame) => Ok(
            PreparedRequest {
                request_id: next_request_id,
                operation,
                frame,
                next_request_id: next_request_id + 1,
            },
        ),
        Err(e) => Err(BrokerClientError::EncodeRequest(e)),
    }
}

/// How long an exchange may take: the operation's own timeout plus the
/// transport grace.
pub fn exchange_deadline(operation: AtaBrokerOperation) -> (t: TimeSpan)
    ensures
        t.nanos == (operation_timeout_secs(operation) + TRANSPORT_GRACE_SECS) * NANOS_PER_SEC,
{
    let timeout = operation.timeout();
    TimeSpan { nanos: timeout.nanos + TRANSPORT_GRACE_SECS as u128 * NANOS_PER_SEC }
}

/// What a response frame tells the client about request `request_id`: a
/// frame that does not decode is invalid, one for another request or
/// operation is mismatched, a denial is passed on, otherwise the typed
/// response is the answer.
pub fn accept_response(frame: &[u8], request_id: u64, operation: AtaBrokerOperation) -> (r: Result<
    BrokerAtaResponse,
    BrokerClientError,
>)
    ensures
        match decode_response(frame@) {
            Err(e) => r matches Err(BrokerClientError::InvalidResponse(e2)) && e2 == e,
            Ok(f) => if f.request_id != request_id || f.operation != operation {
                r matches Err(BrokerClientError::MismatchedResponse)
            } else {
                match f.result {
                    Err(denial) => r matches Err(BrokerClientError::ServerDenied(d)) && d == denial,
                    Ok(v) => r matches Ok(response) && response@ == v,
                }
            },
        },
{
    let response = match decode_response_frame(frame) {
        Ok(response) => response,
        Err(e) => {
            return Err(BrokerClientError::InvalidResponse(e));
        },
    };
    if response.request_id != request_id || response.operation != operation {
        return Err(BrokerClientError::MismatchedResponse);
    }
    match response.result {
        Ok(r) => Ok(r),
        Err(denial) => Err(BrokerClientError::ServerDenied(denial)),
    }
}

/// Whether an error leaves the connection unusable: connection, transport,
/// timing and correlation failures, and a server that calls the request
/// invalid. Other denials keep the connection.
pub open spec fn unusable(error: BrokerClientError) -> bool {
    match error {
        BrokerClientError::Connect(_) => true,
        BrokerClientError::UnauthorizedServer => true,
        BrokerClientError::RequestIdExhausted => true,
        BrokerClientError::Transport(_) => true,
        BrokerClientError::TimedOut => true,
        BrokerClientError::InvalidResponse(_) => true,
        BrokerClientError::MismatchedResponse => true,
        BrokerClientError::ConnectionClosed => true,
        BrokerClientError::ServerDenied(BrokerResponseError::InvalidRequest) => true,
        _ => false,
    }
}

pub fn connection_is_unusable(error: BrokerClientError) -> (r: bool)
    ensures
        r == unusable(error),
{
    match error {
        BrokerClientError::Connect(_) => true,
        BrokerClientError::UnauthorizedServer => true,
        BrokerClientError::RequestIdExhausted => true,
        BrokerClientError::Transport(_) => true,
        BrokerClientError::TimedOut => true,
        BrokerClientError::InvalidResponse(_) => true,
        BrokerClientError::MismatchedResponse => true,
        BrokerClientError::ConnectionClosed => true,
        BrokerClientError::ServerDenied(BrokerResponseError::InvalidRequest) => true,
        _ => false,
    }
}

} // verus!
