use vault_watch::broker::wire::{
    decode_request_frame, encode_request_frame, BrokerPeerCredentials, BrokerPeerPolicy,
    BrokerSession, BrokerWireError, MAX_REQUEST_FRAME_LEN,
};
use vault_watch::broker::{AtaBrokerOperation, BrokerDeviceRef, BrokerGeneration, BrokerRequest};

fn request(operation: AtaBrokerOperation, request_id: u64) -> BrokerRequest {
    BrokerRequest {
        request_id,
        device: BrokerDeviceRef {
            node_id: "block:sda".to_owned(),
            generation: BrokerGeneration {
                diskseq: 42,
                dev_major: 8,
                dev_minor: 0,
            },
        },
        operation,
    }
}

#[test]
fn every_typed_operation_round_trips_without_raw_payload_fields() {
    for operation in [
        AtaBrokerOperation::IdentifyDevice,
        AtaBrokerOperation::SmartReadData,
        AtaBrokerOperation::SmartReadThresholds,
        AtaBrokerOperation::SmartReturnStatus,
        AtaBrokerOperation::ReadGplDirectory,
    ] {
        let request = request(operation, 1);
        let frame = encode_request_frame(&request).unwrap();
        assert!(frame.len() <= MAX_REQUEST_FRAME_LEN);
        assert_eq!(decode_request_frame(&frame), Ok(request));
    }
}

#[test]
fn truncation_trailing_reserved_and_unknown_operations_are_rejected() {
    let frame = encode_request_frame(&request(AtaBrokerOperation::IdentifyDevice, 1)).unwrap();
    for length in 0..frame.len() {
        assert!(decode_request_frame(&frame[..length]).is_err());
    }
    let mut trailing = frame.clone();
    trailing.push(0);
    assert_eq!(
        decode_request_frame(&trailing),
        Err(BrokerWireError::TrailingOrMissingBytes)
    );
    let mut reserved = frame.clone();
    reserved[6] = 1;
    assert_eq!(
        decode_request_frame(&reserved),
        Err(BrokerWireError::NonZeroReserved)
    );
    let mut operation = frame;
    operation[5] = 0xff;
    assert_eq!(
        decode_request_frame(&operation),
        Err(BrokerWireError::UnknownOperation)
    );
}

#[test]
fn peer_policy_and_monotonic_request_ids_block_unauthorized_replay() {
    let policy = BrokerPeerPolicy {
        allowed_uid: 1000,
        allowed_gid: 1000,
    };
    let peer = BrokerPeerCredentials {
        uid: 1000,
        gid: 1000,
        pid: 123,
    };
    assert_eq!(
        BrokerSession::new(policy, BrokerPeerCredentials { uid: 0, ..peer }),
        Err(BrokerWireError::UnauthorizedPeer)
    );
    let mut session = BrokerSession::new(policy, peer).unwrap();
    let first = encode_request_frame(&request(AtaBrokerOperation::IdentifyDevice, 7)).unwrap();
    assert!(session.decode_next(&first).is_ok());
    assert_eq!(
        session.decode_next(&first),
        Err(BrokerWireError::ReplayedOrOutOfOrder)
    );
    let older = encode_request_frame(&request(AtaBrokerOperation::SmartReadData, 6)).unwrap();
    assert_eq!(
        session.decode_next(&older),
        Err(BrokerWireError::ReplayedOrOutOfOrder)
    );
}
