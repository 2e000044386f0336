use vault_watch::broker::server::{BrokerServer, BrokerServerConfigError};
use vault_watch::broker::wire::{
    request_frame_len, request_header_len, BrokerPeerPolicy, BrokerWireError,
};
use vault_watch::broker::{AtaCapabilityGrant, BrokerDeviceGrant, BrokerGeneration, GrantedBackend};
use vault_watch::storage::StorageInventory;

fn peer_policy() -> BrokerPeerPolicy {
    BrokerPeerPolicy {
        allowed_uid: 1000,
        allowed_gid: 1000,
    }
}

#[test]
fn request_length_parser_rejects_unbounded_node_length() {
    let mut header = vec![0; request_header_len()];
    header[32..34].copy_from_slice(&u16::MAX.to_le_bytes());
    assert_eq!(
        request_frame_len(&header),
        Err(BrokerWireError::InvalidNodeLength)
    );
}

#[test]
fn configuration_rejects_partial_inventory_and_duplicate_grants() {
    assert!(matches!(
        BrokerServer::new(
            StorageInventory {
                partial: true,
                ..StorageInventory::default()
            },
            Vec::new(),
            peer_policy(),
        ),
        Err(BrokerServerConfigError::InvalidInventory)
    ));

    let grant = BrokerDeviceGrant {
        node_id: "block:sda".to_owned(),
        generation: BrokerGeneration {
            diskseq: 42,
            dev_major: 8,
            dev_minor: 0,
        },
        backend: GrantedBackend::AtaSat,
        ata: AtaCapabilityGrant::default(),
    };
    assert!(matches!(
        BrokerServer::new(
            StorageInventory::default(),
            vec![grant.clone(), grant],
            peer_policy(),
        ),
        Err(BrokerServerConfigError::DuplicateGrant)
    ));
}
