use vault_watch::scsi::mapping::{MappingAvailability, ScsiGenericMapping};
use vault_watch::scsi::{
    discovered_log_command, discovered_vpd_command, parse_block_device_characteristics_vpd,
    parse_device_identification_vpd, parse_error_counter_log, parse_informational_exception_log,
    parse_non_medium_error_log, parse_sense, parse_standard_inquiry, parse_supported_log_pages,
    parse_supported_vpd_pages, parse_temperature_log, reject_untyped_command, route_backend,
    route_discovered_mapping, sense_action, validate_completion, BackendRoute,
    CommandPolicyRejection, CompletionError, CompletionOutcome, DataDirection, ErrorCounters,
    LogPage, MediumRotation, ParseError, ProposedDirection, ReadOnlyCommand, RoutingEvidence,
    SenseAction, SenseData, SenseFormat, StandardInquiry, Temperature, TransportCompletion,
    VpdPage, INQUIRY, TEST_UNIT_READY,
};

#[test]
fn command_surface_contains_only_none_or_data_in_operations() {
    let commands = [
        ReadOnlyCommand::TestUnitReady,
        ReadOnlyCommand::Inquiry { allocation_len: 96 },
        ReadOnlyCommand::InquiryVpd {
            page: VpdPage::DeviceIdentification,
            allocation_len: 255,
        },
        ReadOnlyCommand::LogSense {
            page: LogPage::Temperature,
            allocation_len: 512,
        },
    ];
    assert!(commands.iter().all(|command| matches!(
        command.direction(),
        DataDirection::NoTransfer | DataDirection::FromDevice
    )));
    assert_eq!(commands[0].cdb()[0], TEST_UNIT_READY);
    assert_eq!(commands[1].cdb()[0], INQUIRY);
    assert_eq!(commands[3].cdb(), [0x4d, 0, 0x0d, 0, 0, 0, 0, 2, 0, 0]);
}

#[test]
fn untyped_data_out_vendor_and_other_raw_commands_are_rejected() {
    assert_eq!(
        reject_untyped_command(0x2a, ProposedDirection::ToDevice),
        CommandPolicyRejection::DataOut
    );
    assert_eq!(
        reject_untyped_command(0xc1, ProposedDirection::FromDevice),
        CommandPolicyRejection::VendorCommand
    );
    assert_eq!(
        reject_untyped_command(0x12, ProposedDirection::FromDevice),
        CommandPolicyRejection::RawCdb
    );
    assert_eq!(
        reject_untyped_command(0x00, ProposedDirection::NoTransfer),
        CommandPolicyRejection::RawCdb
    );
}

#[test]
fn capability_commands_require_advertised_pages() {
    let vpd = [0x83, 0xb1];
    assert!(discovered_vpd_command(VpdPage::DeviceIdentification, &vpd, 255).is_some());
    assert!(discovered_vpd_command(VpdPage::AtaInformation, &vpd, 255).is_none());
    let logs = [0x03, 0x0d];
    assert!(discovered_log_command(LogPage::Temperature, &logs, 512).is_some());
    assert!(discovered_log_command(LogPage::InformationalExceptions, &logs, 512).is_none());
}

#[test]
fn routing_distinguishes_native_sat_hidden_ambiguous_and_non_disk() {
    let direct_disk = StandardInquiry {
        peripheral_device_type: 0,
        removable: false,
        version: 6,
    };
    let evidence = |count, pages: Vec<u8>| RoutingEvidence {
        scsi_generic_count: count,
        inquiry: Some(direct_disk.clone()),
        supported_vpd_pages: pages,
        transport_available: true,
        controller_logical_volume: false,
    };
    assert_eq!(
        route_backend(&evidence(1, vec![0x83])),
        BackendRoute::NativeScsi
    );
    assert_eq!(
        route_backend(&evidence(1, vec![0x83, 0x89])),
        BackendRoute::Sat
    );
    assert_eq!(
        route_backend(&evidence(2, vec![0x83])),
        BackendRoute::AmbiguousScsiMapping
    );

    let mut hidden = evidence(0, vec![]);
    hidden.controller_logical_volume = true;
    hidden.transport_available = false;
    assert_eq!(route_backend(&hidden), BackendRoute::ControllerHidden);

    let mut tape = evidence(1, vec![]);
    tape.inquiry.as_mut().unwrap().peripheral_device_type = 1;
    assert_eq!(route_backend(&tape), BackendRoute::UnsupportedPeripheral(1));
}

#[test]
fn discovered_mapping_preserves_missing_partial_and_controller_hidden_states() {
    let inquiry = Some(StandardInquiry {
        peripheral_device_type: 0,
        removable: false,
        version: 6,
    });
    let mapping = |availability, entries: &[&str], rejected_entries| ScsiGenericMapping {
        entries: entries.iter().map(|entry| (*entry).to_owned()).collect(),
        rejected_entries,
        availability,
    };
    assert_eq!(
        route_discovered_mapping(
            &mapping(MappingAvailability::Complete, &["sg0"], 0),
            inquiry.clone(),
            vec![0x83],
            false,
        ),
        BackendRoute::NativeScsi
    );
    assert_eq!(
        route_discovered_mapping(
            &mapping(MappingAvailability::Complete, &["sg0"], 1),
            inquiry.clone(),
            vec![],
            false,
        ),
        BackendRoute::AmbiguousScsiMapping
    );
    assert_eq!(
        route_discovered_mapping(
            &mapping(MappingAvailability::NoScsiGenericInterface, &[], 0),
            inquiry.clone(),
            vec![],
            true,
        ),
        BackendRoute::ControllerHidden
    );
    assert_eq!(
        route_discovered_mapping(
            &mapping(MappingAvailability::DeviceGone, &[], 0),
            inquiry,
            vec![],
            false,
        ),
        BackendRoute::InsufficientEvidence
    );
}

#[test]
fn completion_validation_bounds_payload_sense_and_transport_status() {
    let completion = TransportCompletion {
        ioctl_succeeded: true,
        scsi_status: 0,
        host_status: 0,
        driver_status: 0,
        residual: 24,
        requested_len: 64,
        sense_written: 0,
        sense_capacity: 32,
    };
    assert_eq!(
        validate_completion(completion),
        Ok(CompletionOutcome::DataIn { payload_len: 40 })
    );
    assert_eq!(
        validate_completion(TransportCompletion {
            residual: -1,
            ..completion
        }),
        Err(CompletionError::InvalidResidual(-1))
    );
    assert_eq!(
        validate_completion(TransportCompletion {
            scsi_status: 2,
            residual: 0,
            sense_written: 18,
            ..completion
        }),
        Ok(CompletionOutcome::CheckCondition { sense_len: 18 })
    );
    assert!(matches!(
        validate_completion(TransportCompletion {
            host_status: 1,
            ..completion
        }),
        Err(CompletionError::HostStatus(1))
    ));
    assert!(matches!(
        validate_completion(TransportCompletion {
            sense_written: 33,
            ..completion
        }),
        Err(CompletionError::InvalidSenseLength { .. })
    ));
}

#[test]
fn parses_standard_inquiry_without_retaining_identity_text() {
    let fixture = [0x00, 0x80, 0x06, 0x02, 0x03, 0, 0, 0];
    assert_eq!(
        parse_standard_inquiry(&fixture),
        Ok(StandardInquiry {
            peripheral_device_type: 0,
            removable: true,
            version: 6,
        })
    );
}

#[test]
fn parses_supported_vpd_pages_and_rejects_truncation() {
    let fixture = [0, 0, 0, 4, 0x80, 0x83, 0x89, 0xb1];
    assert_eq!(
        parse_supported_vpd_pages(&fixture),
        Ok(vec![0x80, 0x83, 0x89, 0xb1])
    );
    assert!(matches!(
        parse_supported_vpd_pages(&fixture[..6]),
        Err(ParseError::DeclaredLengthExceedsPayload { .. })
    ));
}

#[test]
fn parses_vpd_identifiers_by_scope_without_text_assumptions() {
    let fixture = [
        0, 0x83, 0, 12, 0x61, 0x03, 0, 4, 0xde, 0xad, 0xbe, 0xef, 0x12, 0x18, 0, 0,
    ];
    let descriptors = parse_device_identification_vpd(&fixture).unwrap();
    assert_eq!(descriptors.len(), 2);
    assert_eq!(descriptors[0].protocol_identifier, 6);
    assert_eq!(descriptors[0].code_set, 1);
    assert_eq!(descriptors[0].association, 0);
    assert_eq!(descriptors[0].designator_type, 3);
    assert_eq!(descriptors[0].value, [0xde, 0xad, 0xbe, 0xef]);
    assert!(descriptors[1].value.is_empty());
}

#[test]
fn parses_rotation_and_supported_log_pages() {
    assert_eq!(
        parse_block_device_characteristics_vpd(&[0, 0xb1, 0, 2, 0, 1]),
        Ok(MediumRotation::SolidState)
    );
    assert_eq!(
        parse_block_device_characteristics_vpd(&[0, 0xb1, 0, 2, 0x1c, 0x20]),
        Ok(MediumRotation::RotationalRpm(7200))
    );
    assert_eq!(
        parse_supported_log_pages(&[0, 0, 0, 4, 0x02, 0x03, 0x0d, 0x2f]),
        Ok(vec![0x02, 0x03, 0x0d, 0x2f])
    );
}

#[test]
fn temperature_sentinel_is_unavailable_not_zero() {
    let fixture = [0x0d, 0, 0, 12, 0, 0, 0, 2, 0, 42, 0, 1, 0, 2, 0, 0xff];
    assert_eq!(
        parse_temperature_log(&fixture),
        Ok(Temperature {
            current_c: Some(42),
            reference_c: None,
        })
    );
}

#[test]
fn malformed_log_parameter_is_not_silently_dropped() {
    let fixture = [0x0d, 0, 0, 5, 0, 0, 0, 2, 42];
    assert!(matches!(
        parse_temperature_log(&fixture),
        Err(ParseError::TruncatedParameter { .. })
    ));
}

#[test]
fn parses_error_counters_and_rejects_nonstandard_integer_width() {
    let fixture = [
        0x03, 0, 0, 16, 0, 3, 0, 4, 0, 0, 0, 9, 0, 6, 0, 4, 0, 0, 0, 2,
    ];
    assert_eq!(
        parse_error_counter_log(&fixture, LogPage::ReadErrors),
        Ok(ErrorCounters {
            total_errors_corrected: Some(9),
            total_uncorrected_errors: Some(2),
            ..ErrorCounters::default()
        })
    );
    let invalid_width = [0x06, 0, 0, 7, 0, 0, 0, 3, 1, 2, 3];
    assert!(matches!(
        parse_non_medium_error_log(&invalid_width),
        Err(ParseError::InvalidParameterWidth { width: 3, .. })
    ));
}

#[test]
fn informational_exception_is_explicit_and_temperature_can_be_unavailable() {
    let fixture = [0x2f, 0, 0, 7, 0, 0, 0, 3, 0x5d, 0x01, 0xff];
    let exception = parse_informational_exception_log(&fixture)
        .unwrap()
        .unwrap();
    assert!(exception.failure_predicted());
    assert_eq!(exception.temperature_c, None);
    assert_eq!(
        parse_informational_exception_log(&[0x2f, 0, 0, 0]),
        Ok(None)
    );
}

#[test]
fn decodes_fixed_descriptor_and_short_sense() {
    let mut fixed = [0u8; 14];
    fixed[0] = 0x70;
    fixed[2] = 0x05;
    fixed[12] = 0x24;
    assert_eq!(
        parse_sense(&fixed),
        Ok(SenseData {
            format: SenseFormat::Fixed,
            sense_key: 5,
            asc: 0x24,
            ascq: 0,
        })
    );
    assert_eq!(
        parse_sense(&[0x72, 0x06, 0x29, 0]),
        Ok(SenseData {
            format: SenseFormat::Descriptor,
            sense_key: 6,
            asc: 0x29,
            ascq: 0,
        })
    );
    assert!(matches!(
        parse_sense(&[0x70, 0, 5]),
        Err(ParseError::Truncated { .. })
    ));
}

#[test]
fn sense_policy_is_bounded_and_does_not_hide_media_failure() {
    let sense = |sense_key, asc| SenseData {
        format: SenseFormat::Descriptor,
        sense_key,
        asc,
        ascq: 0,
    };
    assert_eq!(
        sense_action(sense(5, 0x24), true, false),
        SenseAction::Unsupported
    );
    assert_eq!(
        sense_action(sense(6, 0x29), false, false),
        SenseAction::RetryOnceRefreshCapabilities
    );
    assert_eq!(
        sense_action(sense(6, 0x29), false, true),
        SenseAction::Report
    );
    assert_eq!(
        sense_action(sense(3, 0x11), false, false),
        SenseAction::MediaFailure
    );
    assert_eq!(
        sense_action(sense(4, 0x44), false, false),
        SenseAction::HardwareFailure
    );
}

#[test]
fn every_truncated_prefix_fails_without_panicking() {
    let vpd = [0, 0x83, 0, 8, 0x61, 0x03, 0, 4, 1, 2, 3, 4];
    for end in 0..vpd.len() {
        assert!(parse_device_identification_vpd(&vpd[..end]).is_err());
    }
    let log = [0x03, 0, 0, 8, 0, 6, 0, 4, 0, 0, 0, 1];
    for end in 0..log.len() {
        assert!(parse_error_counter_log(&log[..end], LogPage::ReadErrors).is_err());
    }
}
