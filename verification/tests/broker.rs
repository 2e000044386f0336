use vault_watch::broker::{
    authorize_ata_request, revalidate_opened_device, AtaBrokerOperation, AtaCapabilityGrant,
    BrokerDenyReason, BrokerDeviceGrant, BrokerDeviceRef, BrokerGeneration, BrokerRequest,
    ExecutionDenyReason, GrantedBackend, OpenedDeviceEvidence,
};
use vault_watch::storage::{Generation, Materialization, StorageInventory, StorageKind};
use vault_watch::timing::TimeSpan;

use vault_watch::storage::StorageNode;

fn generation() -> BrokerGeneration {
    BrokerGeneration {
        diskseq: 42,
        dev_major: 8,
        dev_minor: 0,
    }
}

fn storage_generation() -> Generation {
    Generation {
        diskseq: Some(42),
        dev_t: Some((8, 0)),
    }
}

fn inventory(materialization: Materialization) -> StorageInventory {
    StorageInventory {
        nodes: vec![StorageNode {
            id: "block:sda".to_owned(),
            name: "sda".to_owned(),
            kind: StorageKind::ScsiLike,
            materialization,
            removable: Some(false),
            identities: Vec::new(),
            generation: storage_generation(),
        }],
        edges: Vec::new(),
        partial: false,
    }
}

fn grant() -> BrokerDeviceGrant {
    BrokerDeviceGrant {
        node_id: "block:sda".to_owned(),
        generation: generation(),
        backend: GrantedBackend::AtaSat,
        ata: AtaCapabilityGrant {
            smart: true,
            smart_thresholds: false,
            gpl: false,
        },
    }
}

fn request(operation: AtaBrokerOperation) -> BrokerRequest {
    BrokerRequest {
        request_id: 7,
        device: BrokerDeviceRef {
            node_id: "block:sda".to_owned(),
            generation: generation(),
        },
        operation,
    }
}

#[test]
fn authorized_plan_uses_fixed_limits_not_client_controlled_fields() {
    let plan = authorize_ata_request(
        &inventory(Materialization::BlockDevice),
        &grant(),
        &request(AtaBrokerOperation::SmartReadData),
    )
    .unwrap();
    assert_eq!(plan.timeout(), TimeSpan::from_secs(5));
    assert_eq!(plan.response_limit(), 512);
    assert_eq!(plan.node_id(), "block:sda");
}

#[test]
fn partition_stale_generation_and_path_like_ids_are_denied() {
    assert_eq!(
        authorize_ata_request(
            &inventory(Materialization::Partition),
            &grant(),
            &request(AtaBrokerOperation::IdentifyDevice),
        ),
        Err(BrokerDenyReason::NotWholeDevice)
    );

    let mut stale = request(AtaBrokerOperation::IdentifyDevice);
    stale.device.generation.diskseq = 41;
    assert_eq!(
        authorize_ata_request(&inventory(Materialization::BlockDevice), &grant(), &stale),
        Err(BrokerDenyReason::StaleGeneration)
    );

    let mut path = request(AtaBrokerOperation::IdentifyDevice);
    path.device.node_id = "/dev/sda".to_owned();
    assert_eq!(
        authorize_ata_request(&inventory(Materialization::BlockDevice), &grant(), &path),
        Err(BrokerDenyReason::InvalidDeviceId)
    );
}

#[test]
fn capability_claims_cannot_be_smuggled_in_a_request() {
    assert_eq!(
        authorize_ata_request(
            &inventory(Materialization::BlockDevice),
            &grant(),
            &request(AtaBrokerOperation::ReadGplDirectory),
        ),
        Err(BrokerDenyReason::CapabilityNotGranted)
    );
    assert_eq!(
        authorize_ata_request(
            &inventory(Materialization::BlockDevice),
            &grant(),
            &request(AtaBrokerOperation::SmartReadThresholds),
        ),
        Err(BrokerDenyReason::CapabilityNotGranted)
    );
}

#[test]
fn missing_generation_and_wrong_protocol_are_denied() {
    let missing = request(AtaBrokerOperation::IdentifyDevice);
    let mut missing_inventory = inventory(Materialization::BlockDevice);
    missing_inventory.nodes[0].generation.diskseq = None;
    assert_eq!(
        authorize_ata_request(&missing_inventory, &grant(), &missing),
        Err(BrokerDenyReason::MissingGeneration)
    );

    let mut wrong = inventory(Materialization::BlockDevice);
    wrong.nodes[0].kind = StorageKind::Nvme;
    assert_eq!(
        authorize_ata_request(
            &wrong,
            &grant(),
            &request(AtaBrokerOperation::IdentifyDevice),
        ),
        Err(BrokerDenyReason::WrongProtocolView)
    );

    let mut partial = inventory(Materialization::BlockDevice);
    partial.partial = true;
    assert_eq!(
        authorize_ata_request(
            &partial,
            &grant(),
            &request(AtaBrokerOperation::IdentifyDevice),
        ),
        Err(BrokerDenyReason::PartialInventory)
    );
}

#[test]
fn post_open_revalidation_denies_partition_write_access_and_generation_change() {
    let authorized = authorize_ata_request(
        &inventory(Materialization::BlockDevice),
        &grant(),
        &request(AtaBrokerOperation::SmartReadData),
    )
    .unwrap();
    let valid = OpenedDeviceEvidence {
        is_block_device: true,
        is_partition: false,
        opened_read_only: true,
        generation: generation(),
    };
    assert!(revalidate_opened_device(&authorized, valid).is_ok());
    assert_eq!(
        revalidate_opened_device(
            &authorized,
            OpenedDeviceEvidence {
                is_partition: true,
                ..valid
            },
        ),
        Err(ExecutionDenyReason::Partition)
    );
    assert_eq!(
        revalidate_opened_device(
            &authorized,
            OpenedDeviceEvidence {
                opened_read_only: false,
                ..valid
            },
        ),
        Err(ExecutionDenyReason::NotReadOnly)
    );
    assert_eq!(
        revalidate_opened_device(
            &authorized,
            OpenedDeviceEvidence {
                generation: BrokerGeneration {
                    diskseq: 43,
                    ..generation()
                },
                ..valid
            },
        ),
        Err(ExecutionDenyReason::IdentityChangedAfterOpen)
    );
}
