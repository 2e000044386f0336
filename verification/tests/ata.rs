use vault_watch::ata::{
    apply_thresholds, parse_ata_return_descriptor, parse_identify_device, parse_smart_attributes,
    parse_smart_thresholds, smart_return_status, AtaMedium, AtaParseError, AtaReadCommand,
    AtaReturnDescriptor, SmartStatus,
};

fn set_word(data: &mut [u8; 512], index: usize, value: u16) {
    data[index * 2..index * 2 + 2].copy_from_slice(&value.to_le_bytes());
}

fn set_ata_string(data: &mut [u8; 512], first_word: usize, words: usize, value: &str) {
    let mut padded = vec![b' '; words * 2];
    padded[..value.len()].copy_from_slice(value.as_bytes());
    for (index, chunk) in padded.chunks_exact(2).enumerate() {
        data[(first_word + index) * 2] = chunk[1];
        data[(first_word + index) * 2 + 1] = chunk[0];
    }
}

fn checksum(page: &mut [u8; 512]) {
    page[511] = 0u8.wrapping_sub(page[..511].iter().fold(0u8, |s, b| s.wrapping_add(*b)));
}

#[test]
fn typed_sat_builders_expose_only_allowlisted_data_in_or_non_data_commands() {
    let identify = AtaReadCommand::IdentifyDevice.cdb();
    assert_eq!(identify[0], 0x85);
    assert_eq!(identify[1], 4 << 1);
    assert_eq!(identify[2], 0x2e);
    assert_eq!(identify[14], 0xec);
    let status = AtaReadCommand::SmartReturnStatus.cdb();
    assert_eq!(status[1], 3 << 1);
    assert_eq!(status[2], 0x20);
    assert_eq!(status[4], 0xda);
    assert_eq!(AtaReadCommand::SmartReturnStatus.data_len(), 0);
}

#[test]
fn parses_identify_strings_capacity_smart_and_rotation() {
    let mut data = [0u8; 512];
    set_ata_string(&mut data, 10, 10, "SYNTHETIC");
    set_ata_string(&mut data, 23, 4, "FW1");
    set_ata_string(&mut data, 27, 20, "FIXTURE MODEL");
    set_word(&mut data, 60, 0x5678);
    set_word(&mut data, 61, 0x1234);
    set_word(&mut data, 82, 1);
    set_word(&mut data, 83, (1 << 14) | (1 << 10));
    set_word(&mut data, 100, 1);
    set_word(&mut data, 217, 1);
    let identify = parse_identify_device(&data).unwrap();
    assert_eq!(identify.model, "FIXTURE MODEL");
    assert_eq!(identify.lba28_sectors, 0x1234_5678);
    assert_eq!(identify.lba48_sectors, Some(1));
    assert_eq!(identify.medium, AtaMedium::SolidState);
    assert!(identify.smart_supported);
}

#[test]
fn smart_attributes_keep_raw_vendor_bytes_and_match_thresholds_by_id() {
    let mut data = [0u8; 512];
    data[2..14].copy_from_slice(&[5, 1, 0, 90, 80, 1, 2, 3, 4, 5, 6, 0]);
    checksum(&mut data);
    let mut attributes = parse_smart_attributes(&data).unwrap();
    assert_eq!(attributes[0].raw, [1, 2, 3, 4, 5, 6]);
    let mut thresholds = [0u8; 512];
    thresholds[2] = 5;
    thresholds[3] = 10;
    checksum(&mut thresholds);
    apply_thresholds(
        &mut attributes,
        &parse_smart_thresholds(&thresholds).unwrap(),
    );
    assert_eq!(attributes[0].threshold, Some(10));
}

#[test]
fn bad_checksum_and_invalid_normalized_values_are_explicit() {
    let mut data = [0u8; 512];
    data[2..14].copy_from_slice(&[9, 0, 0, 0xff, 0, 0, 0, 0, 0, 0, 0, 0]);
    checksum(&mut data);
    let attributes = parse_smart_attributes(&data).unwrap();
    assert_eq!(attributes[0].current, None);
    data[100] = 1;
    assert_eq!(
        parse_smart_attributes(&data),
        Err(AtaParseError::InvalidChecksum)
    );
}

#[test]
fn parses_ata_return_descriptor_and_smart_status_signatures() {
    let sense = [
        0x72, 1, 0, 0, 0, 0, 0, 14, 0x09, 0x0c, 0, 0, 0, 1, 0, 0, 0, 0x4f, 0, 0xc2, 0xa0, 0x50,
    ];
    let registers = parse_ata_return_descriptor(&sense).unwrap();
    assert_eq!(registers.lba_mid, 0x004f);
    assert_eq!(smart_return_status(registers), SmartStatus::Passed);
    assert_eq!(
        smart_return_status(AtaReturnDescriptor {
            lba_mid: 0xf4,
            lba_high: 0x2c,
            ..registers
        }),
        SmartStatus::PredictingFailure
    );
}

#[test]
fn truncated_pages_and_missing_descriptors_never_become_success() {
    assert!(matches!(
        parse_identify_device(&[0; 511]),
        Err(AtaParseError::WrongLength { .. })
    ));
    assert_eq!(
        parse_ata_return_descriptor(&[0x72, 0, 0, 0, 0, 0, 0, 0]),
        Err(AtaParseError::MissingAtaReturnDescriptor)
    );
}
