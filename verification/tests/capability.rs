use vault_watch::broker::capability::{
    ata_probe_failure, candidate_generation, classify_io_error, record_probe,
    validate_sat_evidence, BrokerCapabilityOutcome, BrokerCapabilityReport,
    ATA_IDENTIFY_DEVICE_COMMAND, STANDARD_INQUIRY_LEN,
};
use vault_watch::broker::device::BrokerAtaExecutionError;
use vault_watch::broker::{AtaCapabilityGrant, BrokerGeneration, GrantedBackend};
use vault_watch::scsi::VpdPage;
use vault_watch::storage::{Materialization, StorageKind};

use vault_watch::storage::StorageNode;
use vault_watch::storage::Generation;

fn node(kind: StorageKind, materialization: Materialization) -> StorageNode {
    StorageNode {
        id: "block:sda".to_owned(),
        name: "sda".to_owned(),
        kind,
        materialization,
        removable: Some(false),
        identities: Vec::new(),
        generation: Generation {
            diskseq: Some(42),
            dev_t: Some((8, 0)),
        },
    }
}

#[test]
fn only_whole_scsi_like_nodes_with_complete_generation_are_candidates() {
    let mut outcomes = Vec::new();
    assert_eq!(
        candidate_generation(
            &node(StorageKind::ScsiLike, Materialization::BlockDevice),
            &mut outcomes,
        ),
        Some(BrokerGeneration {
            diskseq: 42,
            dev_major: 8,
            dev_minor: 0,
        })
    );
    assert!(outcomes.is_empty());

    assert_eq!(
        candidate_generation(
            &node(StorageKind::Nvme, Materialization::BlockDevice),
            &mut outcomes,
        ),
        None
    );
    assert_eq!(outcomes, [BrokerCapabilityOutcome::NotCandidate]);
}

#[test]
fn io_failures_preserve_permission_and_stale_device_classes() {
    assert_eq!(
        classify_io_error(&std::io::Error::from(std::io::ErrorKind::PermissionDenied)),
        BrokerCapabilityOutcome::PermissionDenied
    );
    assert_eq!(
        classify_io_error(&std::io::Error::from(std::io::ErrorKind::InvalidData)),
        BrokerCapabilityOutcome::StaleOrInvalidDevice
    );
    assert_eq!(
        classify_io_error(&std::io::Error::from(std::io::ErrorKind::NotFound)),
        BrokerCapabilityOutcome::DeviceUnavailable
    );
}

#[test]
fn sat_evidence_requires_direct_access_advertised_page_and_identify_device() {
    let mut inquiry = vec![0u8; usize::from(STANDARD_INQUIRY_LEN)];
    inquiry[4] = 31;
    let supported = [0, VpdPage::Supported.code(), 0, 1, 0x89];
    let mut ata_information = [0u8; 60];
    ata_information[1] = VpdPage::AtaInformation.code();
    ata_information[2..4].copy_from_slice(&568u16.to_be_bytes());
    ata_information[56] = ATA_IDENTIFY_DEVICE_COMMAND;
    assert_eq!(
        validate_sat_evidence(&inquiry, &supported, &ata_information),
        Ok(())
    );

    let native_scsi_pages = [0, VpdPage::Supported.code(), 0, 1, 0x83];
    assert_eq!(
        validate_sat_evidence(&inquiry, &native_scsi_pages, &ata_information),
        Err(BrokerCapabilityOutcome::NativeScsiOrAtapi)
    );
    ata_information[56] = 0xa1;
    assert_eq!(
        validate_sat_evidence(&inquiry, &supported, &ata_information),
        Err(BrokerCapabilityOutcome::NativeScsiOrAtapi)
    );
    ata_information[3] = 1;
    assert_eq!(
        validate_sat_evidence(&inquiry, &supported, &ata_information),
        Err(BrokerCapabilityOutcome::MalformedEvidence)
    );
}

#[test]
fn each_probed_candidate_adds_one_outcome_and_only_grants_add_grants() {
    let mut report = BrokerCapabilityReport {
        grants: Vec::new(),
        outcomes: Vec::new(),
    };
    let sda = node(StorageKind::ScsiLike, Materialization::BlockDevice);
    let generation = BrokerGeneration {
        diskseq: 42,
        dev_major: 8,
        dev_minor: 0,
    };
    let capabilities = AtaCapabilityGrant {
        smart: true,
        smart_thresholds: false,
        gpl: false,
    };
    record_probe(&mut report, &sda, generation, Ok(capabilities));
    record_probe(&mut report, &sda, generation, Err(BrokerCapabilityOutcome::PermissionDenied));
    assert_eq!(
        report.outcomes,
        vec![BrokerCapabilityOutcome::GrantedAta, BrokerCapabilityOutcome::PermissionDenied]
    );
    assert_eq!(report.grants.len(), 1);
    assert_eq!(report.grants[0].node_id, "block:sda");
    assert_eq!(report.grants[0].generation, generation);
    assert_eq!(report.grants[0].backend, GrantedBackend::AtaSat);
    assert_eq!(report.grants[0].ata, capabilities);
}

#[test]
fn ata_probe_io_failures_keep_their_class() {
    assert_eq!(
        ata_probe_failure(&BrokerAtaExecutionError::Io(std::io::Error::from(
            std::io::ErrorKind::NotFound
        ))),
        BrokerCapabilityOutcome::DeviceUnavailable
    );
    assert_eq!(
        ata_probe_failure(&BrokerAtaExecutionError::Io(std::io::Error::from(
            std::io::ErrorKind::PermissionDenied
        ))),
        BrokerCapabilityOutcome::PermissionDenied
    );
    assert_eq!(
        ata_probe_failure(&BrokerAtaExecutionError::Io(std::io::Error::from(
            std::io::ErrorKind::TimedOut
        ))),
        BrokerCapabilityOutcome::TransportUnavailable
    );
}
