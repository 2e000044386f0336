//! The broker server's decisions: which configurations it accepts, what it
//! answers to each request frame, and what it records for audit.
//!
//! Sockets, device access and execution stay with the caller, which performs
//! the step that `dispatch_frame` asks for and hands the outcome back.
use vstd::prelude::*;

use super::response::BrokerResponseFrame;
use super::response::BrokerResponseError;
use super::wire::{decode_request, decode_request_frame, BrokerPeerCredentials, BrokerPeerPolicy, BrokerSession, BrokerWireError, peer_accepted};
use super::{
    authorization_decision,
    authorize_ata_request,
    operation_response_limit,
    operation_timeout_secs,
    AtaBrokerOperation,
    AuthorizedBrokerRequest,
    BrokerAtaResponse,
    BrokerDeviceGrant,
    BrokerRequest,
    BrokerRequestView,
};
use crate::storage::{first_violation, StorageInventory};

verus! {

pub const MAX_CONCURRENT_BROKER_SESSIONS: usize = 16;

#[derive(Debug, Clone, Copy, PartialEq, Eq, Structural)]
pub enum BrokerServerConfigError {
    InvalidInventory,
    DuplicateGrant,
}

#[derive(Debug, Clone, Copy, PartialEq, Eq, Structural)]
pub enum BrokerServerAuditOutcome {
    Completed,
    InvalidRequest,
    AuthorizationDenied,
    DeviceUnavailable,
    ExecutionFailed,
    SessionLimit,
}

/// Sanitized audit event: device identity, generation, paths, payloads and
/// transport error details are deliberately absent.
#[derive(Debug, Clone, Copy, PartialEq, Eq, Structural)]
pub struct BrokerServerAuditRecord {
    pub peer: BrokerPeerCredentials,
    pub request_id: Option<u64>,
    pub operation: Option<AtaBrokerOperation>,
    pub outcome: BrokerServerAuditOutcome,
}

/// No two grants name the same device.
pub open spec fn grants_unique(grants: Seq<BrokerDeviceGrant>) -> bool {
    forall|i: int, j: int|
        0 <= i < j < grants.len() ==> #[trigger] grants[i].node_id@ != #[trigger] grants[j].node_id@
}

/// Whether a server may be configured with this inventory and these grants.
pub open spec fn server_config_decision(
    inventory: StorageInventory,
    grants: Seq<BrokerDeviceGrant>,
) -> Result<(), BrokerServerConfigError> {
    if inventory.partial || first_violation(inventory.nodes@, inventory.edges@) is Some {
        Err(BrokerServerConfigError::InvalidInventory)
    } else if !grants_unique(grants) {
        Err(BrokerServerConfigError::DuplicateGrant)
    } else {
        Ok(())
    }
}

#[derive(Debug)]
pub struct BrokerServer {
    inventory: StorageInventory,
    grants: Vec<BrokerDeviceGrant>,
    peer_policy: BrokerPeerPolicy,
}

/// The grant for a device: the first one that names it.
pub open spec fn grant_for(grants: Seq<BrokerDeviceGrant>, node_id: Seq<char>) -> Option<
    BrokerDeviceGrant,
>
    decreases grants.len(),
{
    if grants.len() == 0 {
        None
    } else if grants[0].node_id@ == node_id {
        Some(grants[0])
    } else {
        grant_for(grants.drop_first(), node_id)
    }
}

/// What the server does with a request frame.
#[derive(Debug)]
pub enum DispatchStep {
    /// Answer at once and record the outcome; with no response the frame
    /// could not be correlated and the connection ends.
    Reply(Option<BrokerResponseFrame>, BrokerServerAuditRecord),
    /// Open the authorized device, run the request, and report the outcome
    /// to `device_unavailable_reply` or `execution_reply`.
    Execute(AuthorizedBrokerRequest, BrokerRequest),
}

/// The audit record of a request, or of a frame that did not decode.
pub open spec fn record_of(
    peer: BrokerPeerCredentials,
    request: Option<BrokerRequestView>,
    outcome: BrokerServerAuditOutcome,
) -> BrokerServerAuditRecord {
    BrokerServerAuditRecord {
        peer,
        request_id: match request {
            Some(r) => Some(r.request_id),
            None => None,
        },
        operation: match request {
            Some(r) => Some(r.operation),
            None => None,
        },
        outcome,
    }
}

/// `response` answers `request` with `error`, or is absent when there is
/// no request to answer.
pub open spec fn refuses(
    response: Option<BrokerResponseFrame>,
    request: Option<BrokerRequestView>,
    error: BrokerResponseError,
) -> bool {
    match request {
        None => response is None,
        Some(r) => response matches Some(f) && f.request_id == r.request_id && f.operation
            == r.operation && f.result == Err::<BrokerAtaResponse, BrokerResponseError>(error),
    }
}

/// `step` refuses `request` with `error` and records `outcome`.
pub open spec fn is_refusal(
    step: DispatchStep,
    peer: BrokerPeerCredentials,
    request: Option<BrokerRequestView>,
    error: BrokerResponseError,
    outcome: BrokerServerAuditOutcome,
) -> bool {
    step matches DispatchStep::Reply(response, record) && refuses(response, request, error)
        && record == record_of(peer, request, outcome)
}

/// The decoded request of a frame, if it decodes at all.
pub open spec fn decoded(frame: Seq<u8>) -> Option<BrokerRequestView> {
    match decode_request(frame) {
        Ok(v) => Some(v),
        Err(_) => None,
    }
}

fn record(
    peer: BrokerPeerCredentials,
    request: Option<&BrokerRequest>,
    outcome: BrokerServerAuditOutcome,
) -> (r: BrokerServerAuditRecord)
    ensures
        r == record_of(
            peer,
            match request {
                Some(q) => Some(q@),
                None => None,
            },
            outcome,
        ),
{
    BrokerServerAuditRecord {
        peer,
        request_id: match request {
            Some(q) => Some(q.request_id),
            None => None,
        },
        operation: match request {
            Some(q) => Some(q.operation),
            None => None,
        },
        outcome,
    }
}

fn refusal(
    peer: BrokerPeerCredentials,
    request: &BrokerRequest,
    error: BrokerResponseError,
    outcome: BrokerServerAuditOutcome,
) -> (r: (Option<BrokerResponseFrame>, BrokerServerAuditRecord))
    ensures
        refuses(r.0, Some(request@), error),
        r.1 == record_of(peer, Some(request@), outcome),
{
    (
        Some(
            BrokerResponseFrame {
                request_id: request.request_id,
                operation: request.operation,
                result: Err(error),
            },
        ),
        record(peer, Some(request), outcome),
    )
}

/// The answer when the authorized device could not be opened.
pub fn device_unavailable_reply(peer: BrokerPeerCredentials, request: &BrokerRequest) -> (r: (
    Option<BrokerResponseFrame>,
    BrokerServerAuditRecord,
))
    ensures
        refuses(r.0, Some(request@), BrokerResponseError::DeviceUnavailable),
        r.1 == record_of(peer, Some(request@), BrokerServerAuditOutcome::DeviceUnavailable),
{
    refusal(
        peer,
        request,
        BrokerResponseError::DeviceUnavailable,
        BrokerServerAuditOutcome::DeviceUnavailable,
    )
}

/// The answer once the device ran the request: its typed response, or an
/// execution failure without detail.
pub fn execution_reply(
    peer: BrokerPeerCredentials,
    request: &BrokerRequest,
    result: Result<BrokerAtaResponse, ()>,
) -> (r: (Option<BrokerResponseFrame>, BrokerServerAuditRecord))
    ensures
        r.0 matches Some(f) && f.request_id == request.request_id && f.operation
            == request.operation && (match result {
            Ok(response) => f.result == Ok::<BrokerAtaResponse, BrokerResponseError>(response),
            Err(_) => f.result == Err::<BrokerAtaResponse, BrokerResponseError>(
                BrokerResponseError::ExecutionFailed,
            ),
        }),
        r.1 == record_of(
            peer,
            Some(request@),
            if result is Ok {
                BrokerServerAuditOutcome::Completed
            } else {
                BrokerServerAuditOutcome::ExecutionFailed
            },
        ),
{
    let (result, outcome) = match result {
        Ok(response) => (Ok(response), BrokerServerAuditOutcome::Completed),
        Err(_) => (Err(BrokerResponseError::ExecutionFailed), BrokerServerAuditOutcome::ExecutionFailed),
    };
    (
        Some(
            BrokerResponseFrame {
                request_id: request.request_id,
                operation: request.operation,
                result,
            },
        ),
        record(peer, Some(request), outcome),
    )
}

/// The audit record of a connection refused because every session slot
/// is taken.
pub fn session_limit_record(peer: BrokerPeerCredentials) -> (r: BrokerServerAuditRecord)
    ensures
        r == record_of(peer, None, BrokerServerAuditOutcome::SessionLimit),
{
    record(peer, None, BrokerServerAuditOutcome::SessionLimit)
}

/// The audit record of a connection whose frame could not be read.
pub fn invalid_frame_record(peer: BrokerPeerCredentials) -> (r: BrokerServerAuditRecord)
    ensures
        r == record_of(peer, None, BrokerServerAuditOutcome::InvalidRequest),
{
    record(peer, None, BrokerServerAuditOutcome::InvalidRequest)
}

impl BrokerServer {
    pub closed spec fn inventory_of(&self) -> StorageInventory {
        self.inventory
    }

    pub closed spec fn grants_of(&self) -> Seq<BrokerDeviceGrant> {
        self.grants@
    }

    pub closed spec fn policy_of(&self) -> BrokerPeerPolicy {
        self.peer_policy
    }

    /// A configured server has a complete, valid inventory and at most one
    /// grant per device.
    pub open spec fn well_formed(&self) -> bool {
        server_config_decision(self.inventory_of(), self.grants_of()) is Ok
    }

    /// Accepts a configuration only with a complete, valid inventory and at
    /// most one grant per device.
    pub fn new(
        inventory: StorageInventory,
        grants: Vec<BrokerDeviceGrant>,
        peer_policy: BrokerPeerPolicy,
    ) -> (r: Result<Self, BrokerServerConfigError>)
        ensures
            match server_config_decision(inventory, grants@) {
                Err(e) => r == Err::<Self, BrokerServerConfigError>(e),
                Ok(_) => r matches Ok(s) && s.inventory_of() == inventory && s.grants_of()
                    == grants@ && s.policy_of() == peer_policy && s.well_formed(),
            },
    {
        if inventory.partial || inventory.validate().is_err() {
            return Err(BrokerServerConfigError::InvalidInventory);
        }
        let mut index: usize = 0;
        while index < grants.len()
            invariant
                !inventory.partial,
                first_violation(inventory.nodes@, inventory.edges@) is None,
                index <= grants@.len(),
                forall|i: int, j: int|
                    0 <= i < j < index ==> #[trigger] grants@[i].node_id@
                        != #[trigger] grants@[j].node_id@,
            decreases grants@.len() - index,
        {
            let mut earlier: usize = 0;
            while earlier < index
                invariant
                    !inventory.partial,
                    first_violation(inventory.nodes@, inventory.edges@) is None,
                    index < grants@.len(),
                    earlier <= index,
                    forall|i: int| 0 <= i < earlier ==> grants@[i].node_id@ != grants@[index as int].node_id@,
                decreases index - earlier,
            {
                if grants[earlier].node_id == grants[index].node_id {
                    assert(!grants_unique(grants@)) by {
                        assert(grants@[earlier as int].node_id@ == grants@[index as int].node_id@);
                    }
                    return Err(BrokerServerConfigError::DuplicateGrant);
                }
                earlier = earlier + 1;
            }
            index = index + 1;
        }
        Ok(BrokerServer { inventory, grants, peer_policy })
    }

    /// Opens a session for a connected peer under the server's policy.
    pub fn open_session(&self, peer: BrokerPeerCredentials) -> (r: Result<
        BrokerSession,
        BrokerWireError,
    >)
        ensures
            !peer_accepted(self.policy_of(), peer) ==> r == Err::<BrokerSession, BrokerWireError>(
                BrokerWireError::UnauthorizedPeer,
            ),
            peer_accepted(self.policy_of(), peer) ==> (r matches Ok(s) && s.peer_of() == peer
                && s.last_accepted() == 0),
    {
        BrokerSession::new(self.peer_policy, peer)
    }

    fn find_grant(&self, node_id: &String) -> (r: Option<&BrokerDeviceGrant>)
        ensures
            match grant_for(self.grants_of(), node_id@) {
                None => r is None,
                Some(g) => r matches Some(q) && *q == g,
            },
    {
        let ghost gs = self.grants@;
        assert(gs.subrange(0, gs.len() as int) =~= gs);
        let mut i: usize = 0;
        while i < self.grants.len()
            invariant
                gs == self.grants@,
                i <= gs.len(),
                grant_for(gs, node_id@) == grant_for(gs.subrange(i as int, gs.len() as int), node_id@),
            decreases gs.len() - i,
        {
            assert(gs.subrange(i as int, gs.len() as int).drop_first() =~= gs.subrange(
                i + 1,
                gs.len() as int,
            ));
            if self.grants[i].node_id == *node_id {
                assert(gs.subrange(i as int, gs.len() as int)[0] == gs[i as int]);
                return Some(&self.grants[i]);
            }
            i = i + 1;
        }
        None
    }

    /// Decides what to do with one request frame of a session. A frame that
    /// does not decode, or replays an id, is refused as invalid (with no
    /// response when it cannot be correlated); a request for a device
    /// without a grant, or that the grant and inventory do not authorize,
    /// is refused as denied; otherwise the authorized request is to be run.
    pub fn dispatch_frame(&self, session: &mut BrokerSession, frame: &[u8]) -> (r: DispatchStep)
        ensures
            final(session).peer_of() == old(session).peer_of(),
            match decode_request(frame@) {
                Ok(v) if v.request_id > old(session).last_accepted() => {
                    &&& final(session).last_accepted() == v.request_id
                    &&& match grant_for(self.grants_of(), v.node_id) {
                        None => is_refusal(
                            r,
                            old(session).peer_of(),
                            Some(v),
                            BrokerResponseError::AuthorizationDenied,
                            BrokerServerAuditOutcome::AuthorizationDenied,
                        ),
                        Some(grant) => match authorization_decision(
                            self.inventory_of().nodes@,
                            self.inventory_of().partial,
                            grant,
                            v,
                        ) {
                            Err(_) => is_refusal(
                                r,
                                old(session).peer_of(),
                                Some(v),
                                BrokerResponseError::AuthorizationDenied,
                                BrokerServerAuditOutcome::AuthorizationDenied,
                            ),
                            Ok(generation) => r matches DispatchStep::Execute(a, request)
                                && request@ == v && a.request_id_of() == v.request_id
                                && a.node_id_of() == v.node_id && a.generation_of() == generation
                                && a.operation_of() == v.operation && a.timeout_of().nanos
                                == operation_timeout_secs(v.operation) * 1_000_000_000
                                && a.response_limit_of() == operation_response_limit(v.operation),
                        },
                    }
                },
                _ => {
                    &&& final(session).last_accepted() == old(session).last_accepted()
                    &&& is_refusal(
                        r,
                        old(session).peer_of(),
                        decoded(frame@),
                        BrokerResponseError::InvalidRequest,
                        BrokerServerAuditOutcome::InvalidRequest,
                    )
                },
            },
    {
        let peer = session.peer();
        let request = match session.decode_next(frame) {
            Ok(request) => request,
            Err(_) => {
                let decoded_for_audit = decode_request_frame(frame);
                let response = match &decoded_for_audit {
                    Ok(request) => Some(
                        BrokerResponseFrame {
                            request_id: request.request_id,
                            operation: request.operation,
                            result: Err(BrokerResponseError::InvalidRequest),
                        },
                    ),
                    Err(_) => None,
                };
                let audit = match &decoded_for_audit {
                    Ok(request) => record(peer, Some(request), BrokerServerAuditOutcome::InvalidRequest),
                    Err(_) => record(peer, None, BrokerServerAuditOutcome::InvalidRequest),
                };
                return DispatchStep::Reply(response, audit);
            },
        };
        let grant = match self.find_grant(&request.device.node_id) {
            Some(grant) => grant,
            None => {
                let (response, audit) = refusal(
                    peer,
                    &request,
                    BrokerResponseError::AuthorizationDenied,
                    BrokerServerAuditOutcome::AuthorizationDenied,
                );
                return DispatchStep::Reply(response, audit);
            },
        };
        match authorize_ata_request(&self.inventory, grant, &request) {
            Ok(authorized) => DispatchStep::Execute(authorized, request),
            Err(_) => {
                let (response, audit) = refusal(
                    peer,
                    &request,
                    BrokerResponseError::AuthorizationDenied,
                    BrokerServerAuditOutcome::AuthorizationDenied,
                );
                DispatchStep::Reply(response, audit)
            },
        }
    }
}

} // verus!
