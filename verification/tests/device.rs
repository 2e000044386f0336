use vault_watch::ata::{AtaParseError, AtaReadCommand, SmartStatus};
use vault_watch::broker::device::{
    authorized_device_name, interpret_ata_completion, BrokerAtaExecutionError,
};
use vault_watch::broker::BrokerAtaResponse;
use vault_watch::scsi::sg_uapi::SgIoCompletion;

fn completion(command: AtaReadCommand) -> SgIoCompletion {
    let mut sense = vec![0u8; 22];
    sense[0] = 0x72;
    sense[7] = 14;
    sense[8] = 0x09;
    sense[9] = 0x0c;
    sense[17] = 0x4f;
    sense[19] = 0xc2;
    sense[21] = 0x50;
    SgIoCompletion {
        data: vec![0; command.data_len()],
        sense,
        scsi_status: 0x02,
        host_status: 0,
        driver_status: 0,
        residual: 0,
        duration_ms: 1,
        info: 1,
    }
}

#[test]
fn typed_completion_interpretation_requires_transport_and_ata_success() {
    let response = interpret_ata_completion(
        AtaReadCommand::IdentifyDevice,
        completion(AtaReadCommand::IdentifyDevice),
    )
    .unwrap();
    assert!(matches!(response, BrokerAtaResponse::Identify(_)));

    let status = interpret_ata_completion(
        AtaReadCommand::SmartReturnStatus,
        completion(AtaReadCommand::SmartReturnStatus),
    )
    .unwrap();
    assert_eq!(status, BrokerAtaResponse::SmartStatus(SmartStatus::Passed));

    let mut transport = completion(AtaReadCommand::IdentifyDevice);
    transport.host_status = 1;
    assert!(matches!(
        interpret_ata_completion(AtaReadCommand::IdentifyDevice, transport),
        Err(BrokerAtaExecutionError::TransportStatus { .. })
    ));

    let mut ata_error = completion(AtaReadCommand::IdentifyDevice);
    ata_error.sense[21] = 0x51;
    assert!(matches!(
        interpret_ata_completion(AtaReadCommand::IdentifyDevice, ata_error),
        Err(BrokerAtaExecutionError::AtaStatus { .. })
    ));

    let mut missing = completion(AtaReadCommand::IdentifyDevice);
    missing.sense.clear();
    assert!(matches!(
        interpret_ata_completion(AtaReadCommand::IdentifyDevice, missing),
        Err(BrokerAtaExecutionError::Malformed(
            AtaParseError::TruncatedDescriptor
        ))
    ));
}

#[test]
fn unsafe_or_noncanonical_authorized_names_never_reach_open() {
    for node_id in ["sda", "block:", "block:../sda", "block:sda/child"] {
        assert_eq!(authorized_device_name(node_id), None);
    }
    assert_eq!(authorized_device_name("block:sda"), Some("sda".to_string()));
}
