use vault_watch::broker::response::{response_frame_len, response_header_len, BrokerResponseWireError};

#[test]
fn oversized_response_is_rejected_before_payload_allocation() {
    let mut oversized = vec![0; response_header_len()];
    oversized[16..20].copy_from_slice(&u32::MAX.to_le_bytes());
    assert_eq!(
        response_frame_len(&oversized),
        Err(BrokerResponseWireError::PayloadTooLarge)
    );
}
