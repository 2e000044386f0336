use vault_watch::ata::{AtaLogDirectory, AtaLogPageSupport, AtaMedium, SmartAttribute, SmartStatus};
use vault_watch::broker::response::{
    decode_response_frame, encode_response_frame, BrokerResponseError, BrokerResponseFrame,
    BrokerResponseWireError, MAX_RESPONSE_FRAME_LEN, MAX_SMART_ATTRIBUTES, RESPONSE_HEADER_LEN,
};
use vault_watch::broker::{AtaBrokerOperation, BrokerAtaResponse};

use vault_watch::broker::AtaIdentifySummary;

fn round_trip(operation: AtaBrokerOperation, response: BrokerAtaResponse) {
    let expected = BrokerResponseFrame {
        request_id: 7,
        operation,
        result: Ok(response),
    };
    let encoded = encode_response_frame(&expected).unwrap();
    assert!(encoded.len() <= MAX_RESPONSE_FRAME_LEN);
    assert_eq!(decode_response_frame(&encoded), Ok(expected));
}

#[test]
fn every_typed_response_round_trips() {
    round_trip(
        AtaBrokerOperation::IdentifyDevice,
        BrokerAtaResponse::Identify(AtaIdentifySummary {
            capacity_bytes: Some(4_000_000_000_000),
            medium: AtaMedium::RotationalRpm(7_200),
            smart_supported: true,
            general_purpose_logging_supported: true,
        }),
    );
    round_trip(
        AtaBrokerOperation::SmartReadData,
        BrokerAtaResponse::SmartData(vec![SmartAttribute {
            id: 5,
            flags: 3,
            current: Some(100),
            worst: None,
            raw: [1, 2, 3, 4, 5, 6],
            threshold: Some(10),
        }]),
    );
    round_trip(
        AtaBrokerOperation::SmartReadThresholds,
        BrokerAtaResponse::SmartThresholds(vec![(5, 10), (9, 0)]),
    );
    round_trip(
        AtaBrokerOperation::SmartReturnStatus,
        BrokerAtaResponse::SmartStatus(SmartStatus::PredictingFailure),
    );
    round_trip(
        AtaBrokerOperation::ReadGplDirectory,
        BrokerAtaResponse::GplDirectory(AtaLogDirectory {
            version: 1,
            supported_pages: vec![AtaLogPageSupport {
                address: 4,
                sectors: 2,
            }],
        }),
    );
}

#[test]
fn sanitized_errors_have_no_payload() {
    for error in [
        BrokerResponseError::InvalidRequest,
        BrokerResponseError::AuthorizationDenied,
        BrokerResponseError::DeviceUnavailable,
        BrokerResponseError::ExecutionFailed,
    ] {
        let expected = BrokerResponseFrame {
            request_id: 9,
            operation: AtaBrokerOperation::SmartReturnStatus,
            result: Err(error),
        };
        let encoded = encode_response_frame(&expected).unwrap();
        assert_eq!(encoded.len(), RESPONSE_HEADER_LEN);
        assert_eq!(decode_response_frame(&encoded), Ok(expected));
    }
}

#[test]
fn malformed_lengths_tags_and_operation_mismatch_are_rejected() {
    let mismatch = BrokerResponseFrame {
        request_id: 1,
        operation: AtaBrokerOperation::SmartReturnStatus,
        result: Ok(BrokerAtaResponse::SmartData(Vec::new())),
    };
    assert_eq!(
        encode_response_frame(&mismatch),
        Err(BrokerResponseWireError::OperationPayloadMismatch)
    );

    let valid = encode_response_frame(&BrokerResponseFrame {
        request_id: 1,
        operation: AtaBrokerOperation::SmartReturnStatus,
        result: Ok(BrokerAtaResponse::SmartStatus(SmartStatus::Passed)),
    })
    .unwrap();
    for length in 0..valid.len() {
        assert!(decode_response_frame(&valid[..length]).is_err());
    }
    let mut trailing = valid.clone();
    trailing.push(0);
    assert_eq!(
        decode_response_frame(&trailing),
        Err(BrokerResponseWireError::TrailingOrMissingBytes)
    );

    let mut error_with_payload = valid;
    error_with_payload[6] = 1;
    assert_eq!(
        decode_response_frame(&error_with_payload),
        Err(BrokerResponseWireError::UnexpectedErrorPayload)
    );
}

#[test]
fn response_bounds_reject_oversized_collections() {
    let attributes = vec![
        SmartAttribute {
            id: 1,
            flags: 0,
            current: None,
            worst: None,
            raw: [0; 6],
            threshold: None,
        };
        MAX_SMART_ATTRIBUTES + 1
    ];
    assert_eq!(
        encode_response_frame(&BrokerResponseFrame {
            request_id: 1,
            operation: AtaBrokerOperation::SmartReadData,
            result: Ok(BrokerAtaResponse::SmartData(attributes)),
        }),
        Err(BrokerResponseWireError::PayloadTooLarge)
    );
}
