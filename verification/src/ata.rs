//! ATA/SAT health protocol: the fixed read-only command set and the parsers
//! for IDENTIFY DEVICE, SMART data and thresholds, and the ATA Return
//! descriptor. No device paths, taskfiles or data-out commands exist here.
use vstd::prelude::*;

use crate::text::{decode_lossy, trim_pad, trim_padding, utf8_lossy};

verus! {

pub const ATA_PASS_THROUGH_16: u8 = 0x85;
pub const ATA_IDENTIFY_DEVICE: u8 = 0xec;
pub const ATA_SMART: u8 = 0xb0;
pub const SMART_READ_DATA: u8 = 0xd0;
pub const SMART_READ_THRESHOLDS: u8 = 0xd1;
pub const SMART_RETURN_STATUS: u8 = 0xda;
pub const SMART_LBA_MID: u8 = 0x4f;
pub const SMART_LBA_HIGH: u8 = 0xc2;
pub const ATA_READ_LOG_EXT: u8 = 0x2f;

/// Length of an ATA data page (IDENTIFY, SMART data, SMART thresholds).
pub const ATA_PAGE_LEN: usize = 512;

#[derive(Debug, Clone, Copy, PartialEq, Eq, Structural)]
pub enum AtaReadCommand {
    IdentifyDevice,
    SmartReadData,
    SmartReadThresholds,
    SmartReturnStatus,
    ReadGplDirectory,
}

/// The taskfile fields of a command: protocol, transfer flags, feature,
/// count, LBA mid, LBA high and command opcode.
pub open spec fn command_fields(command: AtaReadCommand) -> (u8, u8, u8, u8, u8, u8, u8) {
    match command {
        AtaReadCommand::ReadGplDirectory => (4, 0x2e, 0, 1, 0, 0, ATA_READ_LOG_EXT),
        AtaReadCommand::IdentifyDevice => (4, 0x2e, 0, 1, 0, 0, ATA_IDENTIFY_DEVICE),
        AtaReadCommand::SmartReadData => (
            4,
            0x2e,
            SMART_READ_DATA,
            1,
            SMART_LBA_MID,
            SMART_LBA_HIGH,
            ATA_SMART,
        ),
        AtaReadCommand::SmartReadThresholds => (
            4,
            0x2e,
            SMART_READ_THRESHOLDS,
            1,
            SMART_LBA_MID,
            SMART_LBA_HIGH,
            ATA_SMART,
        ),
        AtaReadCommand::SmartReturnStatus => (
            3,
            0x20,
            SMART_RETURN_STATUS,
            0,
            SMART_LBA_MID,
            SMART_LBA_HIGH,
            ATA_SMART,
        ),
    }
}

/// Whether a command uses the 48-bit (extended) register set.
pub open spec fn command_extend(command: AtaReadCommand) -> u8 {
    match command {
        AtaReadCommand::ReadGplDirectory => 1,
        _ => 0,
    }
}

/// The 16-byte ATA PASS-THROUGH CDB of a command.
pub open spec fn command_cdb(command: AtaReadCommand) -> Seq<u8> {
    let (protocol, transfer, feature, count, lba_mid, lba_high, opcode) = command_fields(command);
    seq![
        ATA_PASS_THROUGH_16,
        (protocol * 2 + command_extend(command)) as u8,
        transfer,
        0u8,
        feature,
        0u8,
        count,
        0u8,
        0u8,
        0u8,
        lba_mid,
        0u8,
        lba_high,
        0xa0u8,
        opcode,
        0u8,
    ]
}

pub open spec fn command_data_len(command: AtaReadCommand) -> usize {
    match command {
        AtaReadCommand::SmartReturnStatus => 0,
        _ => ATA_PAGE_LEN,
    }
}

impl AtaReadCommand {
    /// Bytes the device returns for this command.
    pub fn data_len(self) -> (n: usize)
        ensures
            n == command_data_len(self),
    {
        match self {
            AtaReadCommand::SmartReturnStatus => 0,
            _ => ATA_PAGE_LEN,
        }
    }

    /// The ATA PASS-THROUGH (16) CDB that carries this command.
    pub fn cdb(self) -> (cdb: [u8; 16])
        ensures
            cdb@ == command_cdb(self),
    {
        let (protocol, transfer, feature, count, lba_mid, lba_high, opcode): (
            u8,
            u8,
            u8,
            u8,
            u8,
            u8,
            u8,
        ) = match self {
            AtaReadCommand::ReadGplDirectory => (4, 0x2e, 0, 1, 0, 0, ATA_READ_LOG_EXT),
            AtaReadCommand::IdentifyDevice => (4, 0x2e, 0, 1, 0, 0, ATA_IDENTIFY_DEVICE),
            AtaReadCommand::SmartReadData => (
                4,
                0x2e,
                SMART_READ_DATA,
                1,
                SMART_LBA_MID,
                SMART_LBA_HIGH,
                ATA_SMART,
            ),
            AtaReadCommand::SmartReadThresholds => (
                4,
                0x2e,
                SMART_READ_THRESHOLDS,
                1,
                SMART_LBA_MID,
                SMART_LBA_HIGH,
                ATA_SMART,
            ),
            AtaReadCommand::SmartReturnStatus => (
                3,
                0x20,
                SMART_RETURN_STATUS,
                0,
                SMART_LBA_MID,
                SMART_LBA_HIGH,
                ATA_SMART,
            ),
        };
        let extend: u8 = match self {
            AtaReadCommand::ReadGplDirectory => 1,
            _ => 0,
        };
        let cdb: [u8; 16] = [
            ATA_PASS_THROUGH_16,
            protocol * 2 + extend,
            transfer,
            0,
            feature,
            0,
            count,
            0,
            0,
            0,
            lba_mid,
            0,
            lba_high,
            0xa0,
            opcode,
            0,
        ];
        assert(cdb@ =~= command_cdb(self));
        cdb
    }
}

#[derive(Debug, Clone, Copy, PartialEq, Eq, Structural)]
pub enum AtaParseError {
    WrongLength { expected: usize, actual: usize },
    InvalidChecksum,
    TruncatedDescriptor,
    MissingAtaReturnDescriptor,
}

#[derive(Debug, Clone, Copy, PartialEq, Eq, Structural)]
pub enum AtaMedium {
    Unknown,
    SolidState,
    RotationalRpm(u16),
}

#[derive(Debug, Clone, PartialEq, Eq)]
pub struct IdentifyDevice {
    pub serial: String,
    pub firmware: String,
    pub model: String,
    pub lba28_sectors: u32,
    pub lba48_sectors: Option<u64>,
    pub medium: AtaMedium,
    pub smart_supported: bool,
    /// Bytes addressable through the 48-bit or, failing that, the 28-bit
    /// sector count; `None` when the device reports no sectors.
    pub capacity_bytes: Option<u128>,
    pub general_purpose_logging_supported: bool,
}

/// Little-endian 16-bit word `index` of an ATA page.
pub open spec fn ata_word(data: Seq<u8>, index: int) -> u16 {
    (data[2 * index] as u16) | ((data[2 * index + 1] as u16) << 8u16)
}

/// The medium reported by IDENTIFY word 217 (nominal media rotation rate).
pub open spec fn medium_from_rate(rate: u16) -> AtaMedium {
    if rate == 1 {
        AtaMedium::SolidState
    } else if 0x0401 <= rate && rate <= 0xfffe {
        AtaMedium::RotationalRpm(rate)
    } else {
        AtaMedium::Unknown
    }
}

/// The bytes of an ATA string field: each word stores its first character
/// in the high byte, so the bytes of every word are swapped.
pub open spec fn ata_string_bytes(data: Seq<u8>, first_word: int, word_count: int) -> Seq<u8> {
    Seq::new(
        (2 * word_count) as nat,
        |k: int|
            if k % 2 == 0 {
                data[2 * first_word + k + 1]
            } else {
                data[2 * first_word + k - 1]
            },
    )
}

/// An ATA string field as text, padding removed from both ends.
pub open spec fn ata_string_text(data: Seq<u8>, first_word: int, word_count: int) -> Seq<char> {
    trim_pad(utf8_lossy(ata_string_bytes(data, first_word, word_count)))
}

pub open spec fn lba28_of(data: Seq<u8>) -> u32 {
    (ata_word(data, 60) as u32) | ((ata_word(data, 61) as u32) << 16u32)
}

pub open spec fn lba48_valid(data: Seq<u8>) -> bool {
    ata_word(data, 83) & 0x0400u16 != 0 && ata_word(data, 83) & 0x4000u16 != 0
}

pub open spec fn lba48_of(data: Seq<u8>) -> u64 {
    (ata_word(data, 100) as u64) | ((ata_word(data, 101) as u64) << 16u64) | ((ata_word(
        data,
        102,
    ) as u64) << 32u64) | ((ata_word(data, 103) as u64) << 48u64)
}

/// Capacity of `sectors` 512-byte logical sectors, `None` for none.
pub open spec fn capacity_of(sectors: u64) -> Option<u128> {
    if sectors == 0 {
        None
    } else {
        Some((sectors * 512) as u128)
    }
}

/// Sector count: the 48-bit count when valid, the 28-bit count otherwise.
pub open spec fn sectors_of(data: Seq<u8>) -> u64 {
    if lba48_valid(data) {
        lba48_of(data)
    } else {
        lba28_of(data) as u64
    }
}

/// Word 84 is valid (bit 14 set, bit 15 clear) and reports the General
/// Purpose Logging feature set (bit 5).
pub open spec fn gpl_supported(data: Seq<u8>) -> bool {
    ata_word(data, 84) & 0xc000u16 == 0x4000u16 && ata_word(data, 84) & 0x0020u16 != 0
}

/// Whether `id` is exactly what IDENTIFY DEVICE page `data` describes.
pub open spec fn identify_matches(data: Seq<u8>, id: IdentifyDevice) -> bool {
    &&& id.serial@ == ata_string_text(data, 10, 10)
    &&& id.firmware@ == ata_string_text(data, 23, 4)
    &&& id.model@ == ata_string_text(data, 27, 20)
    &&& id.lba28_sectors == lba28_of(data)
    &&& id.lba48_sectors == (if lba48_valid(data) {
        Some(lba48_of(data))
    } else {
        None
    })
    &&& id.medium == medium_from_rate(ata_word(data, 217))
    &&& id.smart_supported == (ata_word(data, 82) & 1u16 != 0)
    &&& id.capacity_bytes == capacity_of(sectors_of(data))
    &&& id.general_purpose_logging_supported == gpl_supported(data)
}

fn word_at(data: &[u8], index: usize) -> (w: u16)
    requires
        data@.len() == 512,
        index < 256,
    ensures
        w == ata_word(data@, index as int),
{
    (data[2 * index] as u16) | ((data[2 * index + 1] as u16) << 8u16)
}

fn ata_string(data: &[u8], first_word: usize, word_count: usize) -> (s: String)
    requires
        data@.len() == 512,
        2 * (first_word + word_count) <= 512,
    ensures
        s@ == ata_string_text(data@, first_word as int, word_count as int),
{
    let start = 2 * first_word;
    let mut bytes: Vec<u8> = Vec::new();
    let mut k: usize = 0;
    while k < word_count
        invariant
            start == 2 * first_word,
            data@.len() == 512,
            2 * (first_word + word_count) <= 512,
            k <= word_count,
            bytes@ =~= ata_string_bytes(data@, first_word as int, k as int),
        decreases word_count - k,
    {
        bytes.push(data[start + 2 * k + 1]);
        bytes.push(data[start + 2 * k]);
        k = k + 1;
        assert(bytes@ =~= ata_string_bytes(data@, first_word as int, k as int));
    }
    let text = decode_lossy(bytes.as_slice());
    trim_padding(text.as_str())
}

/// Parses a 512-byte IDENTIFY DEVICE page.
pub fn parse_identify_device(data: &[u8]) -> (r: Result<IdentifyDevice, AtaParseError>)
    ensures
        data@.len() != 512 ==> r == Err::<IdentifyDevice, AtaParseError>(
            AtaParseError::WrongLength { expected: 512, actual: data@.len() as usize },
        ),
        data@.len() == 512 ==> (r matches Ok(id) && identify_matches(data@, id)),
{
    if data.len() != ATA_PAGE_LEN {
        return Err(AtaParseError::WrongLength { expected: ATA_PAGE_LEN, actual: data.len() });
    }
    let w60 = word_at(data, 60);
    let w61 = word_at(data, 61);
    let lba28_sectors: u32 = (w60 as u32) | ((w61 as u32) << 16u32);
    let w83 = word_at(data, 83);
    let lba48_sectors = if w83 & 0x0400u16 != 0 && w83 & 0x4000u16 != 0 {
        let w100 = word_at(data, 100);
        let w101 = word_at(data, 101);
        let w102 = word_at(data, 102);
        let w103 = word_at(data, 103);
        Some(
            (w100 as u64) | ((w101 as u64) << 16u64) | ((w102 as u64) << 32u64) | ((w103 as u64)
                << 48u64),
        )
    } else {
        None
    };
    let rate = word_at(data, 217);
    let medium = if rate == 1 {
        AtaMedium::SolidState
    } else if 0x0401 <= rate && rate <= 0xfffe {
        AtaMedium::RotationalRpm(rate)
    } else {
        AtaMedium::Unknown
    };
    let w82 = word_at(data, 82);
    let sectors: u64 = match lba48_sectors {
        Some(n) => n,
        None => lba28_sectors as u64,
    };
    let capacity_bytes: Option<u128> = if sectors == 0 {
        None
    } else {
        Some(sectors as u128 * 512)
    };
    let w84 = word_at(data, 84);
    Ok(
        IdentifyDevice {
            serial: ata_string(data, 10, 10),
            firmware: ata_string(data, 23, 4),
            model: ata_string(data, 27, 20),
            lba28_sectors,
            lba48_sectors,
            medium,
            smart_supported: w82 & 1u16 != 0,
            capacity_bytes,
            general_purpose_logging_supported: w84 & 0xc000u16 == 0x4000u16 && w84 & 0x0020u16
                != 0,
        },
    )
}

#[derive(Debug, Clone, Copy, PartialEq, Eq)]
pub struct SmartAttribute {
    pub id: u8,
    pub flags: u16,
    pub current: Option<u8>,
    pub worst: Option<u8>,
    /// Vendor-specific bytes. No unit or semantic meaning is assigned here.
    pub raw: [u8; 6],
    pub threshold: Option<u8>,
}

/// A normalized SMART value: 0, 254 and 255 carry no value.
pub open spec fn normalized_value(value: u8) -> Option<u8> {
    if 1 <= value && value <= 253 {
        Some(value)
    } else {
        None
    }
}

fn normalized(value: u8) -> (r: Option<u8>)
    ensures
        r == normalized_value(value),
{
    if 1 <= value && value <= 253 {
        Some(value)
    } else {
        None
    }
}

/// Number of 12-byte attribute entries in a SMART data or threshold page.
pub const SMART_ENTRY_COUNT: usize = 30;

/// Sum of all bytes of `s`.
pub open spec fn byte_sum(s: Seq<u8>) -> int
    decreases s.len(),
{
    if s.len() == 0 {
        0
    } else {
        byte_sum(s.drop_last()) + s.last()
    }
}

/// A SMART page is valid when it has 512 bytes whose sum is 0 modulo 256.
pub open spec fn smart_page_error(data: Seq<u8>) -> Option<AtaParseError> {
    if data.len() != 512 {
        Some(AtaParseError::WrongLength { expected: 512, actual: data.len() as usize })
    } else if byte_sum(data) % 256 != 0 {
        Some(AtaParseError::InvalidChecksum)
    } else {
        None
    }
}

fn validate_smart_page(data: &[u8]) -> (r: Result<(), AtaParseError>)
    ensures
        r matches Err(e) ==> smart_page_error(data@) == Some(e),
        r is Ok ==> smart_page_error(data@) is None,
{
    if data.len() != ATA_PAGE_LEN {
        return Err(AtaParseError::WrongLength { expected: ATA_PAGE_LEN, actual: data.len() });
    }
    let mut sum: u32 = 0;
    let mut i: usize = 0;
    while i < data.len()
        invariant
            i <= data@.len(),
            sum < 256,
            sum == byte_sum(data@.take(i as int)) % 256,
        decreases data@.len() - i,
    {
        assert(data@.take(i + 1).drop_last() =~= data@.take(i as int));
        sum = (sum + data[i] as u32) % 256;
        i = i + 1;
    }
    assert(data@.take(data@.len() as int) =~= data@);
    if sum != 0 {
        return Err(AtaParseError::InvalidChecksum);
    }
    Ok(())
}

/// The attribute stored in entry `k` of a SMART data page.
pub open spec fn smart_entry(data: Seq<u8>, k: int) -> SmartAttribute {
    let o = 2 + 12 * k;
    SmartAttribute {
        id: data[o],
        flags: (data[o + 1] as u16) | ((data[o + 2] as u16) << 8u16),
        current: normalized_value(data[o + 3]),
        worst: normalized_value(data[o + 4]),
        raw: [data[o + 5], data[o + 6], data[o + 7], data[o + 8], data[o + 9], data[o + 10]],
        threshold: None,
    }
}

/// The attributes of the first `k` entries whose id is not zero, in order.
pub open spec fn smart_attributes_upto(data: Seq<u8>, k: int) -> Seq<SmartAttribute>
    decreases k,
{
    if k <= 0 {
        Seq::empty()
    } else {
        let prior = smart_attributes_upto(data, k - 1);
        if data[2 + 12 * (k - 1)] != 0 {
            prior.push(smart_entry(data, k - 1))
        } else {
            prior
        }
    }
}

/// Parses the attribute table of a 512-byte SMART READ DATA page.
pub fn parse_smart_attributes(data: &[u8]) -> (r: Result<Vec<SmartAttribute>, AtaParseError>)
    ensures
        smart_page_error(data@) matches Some(e) ==> r == Err::<Vec<SmartAttribute>, AtaParseError>(
            e,
        ),
        smart_page_error(data@) is None ==> (r matches Ok(v) && v@ == smart_attributes_upto(
            data@,
            30,
        )),
{
    validate_smart_page(data)?;
    let mut attributes: Vec<SmartAttribute> = Vec::new();
    let mut k: usize = 0;
    while k < SMART_ENTRY_COUNT
        invariant
            data@.len() == 512,
            k <= 30,
            attributes@ == smart_attributes_upto(data@, k as int),
        decreases 30 - k,
    {
        let o = 2 + 12 * k;
        if data[o] != 0 {
            let attribute = SmartAttribute {
                id: data[o],
                flags: (data[o + 1] as u16) | ((data[o + 2] as u16) << 8u16),
                current: normalized(data[o + 3]),
                worst: normalized(data[o + 4]),
                raw: [data[o + 5], data[o + 6], data[o + 7], data[o + 8], data[o + 9], data[o + 10]],
                threshold: None,
            };
            attributes.push(attribute);
        }
        k = k + 1;
    }
    Ok(attributes)
}

/// The (id, threshold) pairs of the first `k` entries whose id is not zero.
pub open spec fn smart_thresholds_upto(data: Seq<u8>, k: int) -> Seq<(u8, u8)>
    decreases k,
{
    if k <= 0 {
        Seq::empty()
    } else {
        let prior = smart_thresholds_upto(data, k - 1);
        let o = 2 + 12 * (k - 1);
        if data[o] != 0 {
            prior.push((data[o], data[o + 1]))
        } else {
            prior
        }
    }
}

/// Parses a 512-byte SMART READ THRESHOLDS page into (id, threshold) pairs.
pub fn parse_smart_thresholds(data: &[u8]) -> (r: Result<Vec<(u8, u8)>, AtaParseError>)
    ensures
        smart_page_error(data@) matches Some(e) ==> r == Err::<Vec<(u8, u8)>, AtaParseError>(e),
        smart_page_error(data@) is None ==> (r matches Ok(v) && v@ == smart_thresholds_upto(
            data@,
            30,
        )),
{
    validate_smart_page(data)?;
    let mut thresholds: Vec<(u8, u8)> = Vec::new();
    let mut k: usize = 0;
    while k < SMART_ENTRY_COUNT
        invariant
            data@.len() == 512,
            k <= 30,
            thresholds@ == smart_thresholds_upto(data@, k as int),
        decreases 30 - k,
    {
        let o = 2 + 12 * k;
        if data[o] != 0 {
            thresholds.push((data[o], data[o + 1]));
        }
        k = k + 1;
    }
    Ok(thresholds)
}

/// The threshold of the first pair whose id is `id`.
pub open spec fn first_threshold(thresholds: Seq<(u8, u8)>, id: u8) -> Option<u8>
    decreases thresholds.len(),
{
    if thresholds.len() == 0 {
        None
    } else if thresholds[0].0 == id {
        Some(thresholds[0].1)
    } else {
        first_threshold(thresholds.drop_first(), id)
    }
}

fn find_threshold(thresholds: &[(u8, u8)], id: u8) -> (r: Option<u8>)
    ensures
        r == first_threshold(thresholds@, id),
{
    let mut j: usize = 0;
    assert(thresholds@.subrange(0, thresholds@.len() as int) =~= thresholds@);
    while j < thresholds.len()
        invariant
            j <= thresholds@.len(),
            first_threshold(thresholds@, id) == first_threshold(
                thresholds@.subrange(j as int, thresholds@.len() as int),
                id,
            ),
        decreases thresholds@.len() - j,
    {
        let ghost rest = thresholds@.subrange(j as int, thresholds@.len() as int);
        if thresholds[j].0 == id {
            return Some(thresholds[j].1);
        }
        assert(rest.drop_first() =~= thresholds@.subrange(j + 1, thresholds@.len() as int));
        j = j + 1;
    }
    None
}

/// Sets each attribute's threshold to the one listed for its id, or none.
pub fn apply_thresholds(attributes: &mut Vec<SmartAttribute>, thresholds: &[(u8, u8)])
    ensures
        final(attributes)@.len() == old(attributes)@.len(),
        forall|i: int|
            0 <= i < old(attributes)@.len() ==> #[trigger] final(attributes)@[i] == (SmartAttribute {
                threshold: first_threshold(thresholds@, old(attributes)@[i].id),
                ..old(attributes)@[i]
            }),
{
    let n = attributes.len();
    let mut i: usize = 0;
    while i < n
        invariant
            n == attributes@.len(),
            n == old(attributes)@.len(),
            i <= n,
            forall|k: int|
                0 <= k < i ==> #[trigger] attributes@[k] == (SmartAttribute {
                    threshold: first_threshold(thresholds@, old(attributes)@[k].id),
                    ..old(attributes)@[k]
                }),
            forall|k: int| i <= k < n ==> #[trigger] attributes@[k] == old(attributes)@[k],
        decreases n - i,
    {
        let mut attribute = attributes[i];
        attribute.threshold = find_threshold(thresholds, attribute.id);
        attributes.set(i, attribute);
        i = i + 1;
    }
}

#[derive(Debug, Clone, Copy, PartialEq, Eq, Structural)]
pub struct AtaReturnDescriptor {
    pub extend: bool,
    pub error: u8,
    pub sector_count: u16,
    pub lba_mid: u16,
    pub lba_high: u16,
    pub device: u8,
    pub status: u8,
}

pub open spec fn be16(hi: u8, lo: u8) -> u16 {
    ((hi as u16) << 8u16) | (lo as u16)
}

/// The ATA Return descriptor whose header starts at `offset`.
pub open spec fn descriptor_at(s: Seq<u8>, offset: int) -> AtaReturnDescriptor {
    AtaReturnDescriptor {
        extend: s[offset + 2] & 1u8 != 0,
        error: s[offset + 3],
        sector_count: be16(s[offset + 4], s[offset + 5]),
        lba_mid: be16(s[offset + 8], s[offset + 9]),
        lba_high: be16(s[offset + 10], s[offset + 11]),
        device: s[offset + 12],
        status: s[offset + 13],
    }
}

/// Walks the sense descriptors from `offset` to `end` and returns the first
/// ATA Return descriptor (type 0x09).
pub open spec fn find_return_descriptor(s: Seq<u8>, offset: int, end: int) -> Result<
    AtaReturnDescriptor,
    AtaParseError,
>
    decreases end - offset,
{
    if offset >= end {
        Err(AtaParseError::MissingAtaReturnDescriptor)
    } else if offset + 2 > end {
        Err(AtaParseError::TruncatedDescriptor)
    } else {
        let length = s[offset + 1] as int;
        let next = offset + 2 + length;
        if next > end {
            Err(AtaParseError::TruncatedDescriptor)
        } else if s[offset] == 0x09 {
            if length < 0x0c {
                Err(AtaParseError::TruncatedDescriptor)
            } else {
                Ok(descriptor_at(s, offset))
            }
        } else {
            find_return_descriptor(s, next, end)
        }
    }
}

pub open spec fn is_descriptor_sense(code: u8) -> bool {
    code & 0x7fu8 == 0x72 || code & 0x7fu8 == 0x73
}

/// The ATA Return descriptor carried by descriptor-format sense data.
pub open spec fn ata_return_descriptor_of(s: Seq<u8>) -> Result<AtaReturnDescriptor, AtaParseError> {
    if s.len() < 8 || !is_descriptor_sense(s[0]) {
        Err(AtaParseError::TruncatedDescriptor)
    } else {
        let declared = 8 + s[7] as int;
        let end = if declared < s.len() {
            declared
        } else {
            s.len() as int
        };
        find_return_descriptor(s, 8, end)
    }
}

/// Finds the ATA Return descriptor in descriptor-format sense data.
pub fn parse_ata_return_descriptor(sense: &[u8]) -> (r: Result<AtaReturnDescriptor, AtaParseError>)
    ensures
        r == ata_return_descriptor_of(sense@),
{
    if sense.len() < 8 || !(sense[0] & 0x7f == 0x72 || sense[0] & 0x7f == 0x73) {
        return Err(AtaParseError::TruncatedDescriptor);
    }
    let declared: usize = 8 + sense[7] as usize;
    let end: usize = if declared < sense.len() {
        declared
    } else {
        sense.len()
    };
    let mut offset: usize = 8;
    while offset < end
        invariant
            end <= sense@.len(),
            end <= 263,
            8 <= offset,
            ata_return_descriptor_of(sense@) == find_return_descriptor(
                sense@,
                offset as int,
                end as int,
            ),
        decreases end - offset,
    {
        if offset + 2 > end {
            return Err(AtaParseError::TruncatedDescriptor);
        }
        let length: usize = sense[offset + 1] as usize;
        let next: usize = offset + 2 + length;
        if next > end {
            return Err(AtaParseError::TruncatedDescriptor);
        }
        if sense[offset] == 0x09 {
            if length < 0x0c {
                return Err(AtaParseError::TruncatedDescriptor);
            }
            return Ok(
                AtaReturnDescriptor {
                    extend: sense[offset + 2] & 1 != 0,
                    error: sense[offset + 3],
                    sector_count: ((sense[offset + 4] as u16) << 8u16) | (sense[offset
                        + 5] as u16),
                    lba_mid: ((sense[offset + 8] as u16) << 8u16) | (sense[offset + 9] as u16),
                    lba_high: ((sense[offset + 10] as u16) << 8u16) | (sense[offset
                        + 11] as u16),
                    device: sense[offset + 12],
                    status: sense[offset + 13],
                },
            );
        }
        offset = next;
    }
    Err(AtaParseError::MissingAtaReturnDescriptor)
}

#[derive(Debug, Clone, Copy, PartialEq, Eq, Structural)]
pub enum SmartStatus {
    Passed,
    PredictingFailure,
    Unknown,
}

/// SMART RETURN STATUS signature carried in the LBA mid/high registers.
pub open spec fn smart_status_of(registers: AtaReturnDescriptor) -> SmartStatus {
    let mid = registers.lba_mid as u8;
    let high = registers.lba_high as u8;
    if mid == 0x4f && high == 0xc2 {
        SmartStatus::Passed
    } else if mid == 0xf4 && high == 0x2c {
        SmartStatus::PredictingFailure
    } else {
        SmartStatus::Unknown
    }
}

/// Interprets the SMART RETURN STATUS signature of the returned registers.
pub fn smart_return_status(registers: AtaReturnDescriptor) -> (s: SmartStatus)
    ensures
        s == smart_status_of(registers),
{
    let mid = registers.lba_mid as u8;
    let high = registers.lba_high as u8;
    if mid == 0x4f && high == 0xc2 {
        SmartStatus::Passed
    } else if mid == 0xf4 && high == 0x2c {
        SmartStatus::PredictingFailure
    } else {
        SmartStatus::Unknown
    }
}

/// One entry of the General Purpose Log directory.
#[derive(Debug, Clone, Copy, PartialEq, Eq, Structural)]
pub struct AtaLogPageSupport {
    pub address: u8,
    pub sectors: u16,
}

/// The General Purpose Log directory: its version and the supported pages.
#[derive(Debug, Clone, PartialEq, Eq)]
pub struct AtaLogDirectory {
    pub version: u16,
    pub supported_pages: Vec<AtaLogPageSupport>,
}


/// The supported log pages among addresses 1 to `n - 1` of a General
/// Purpose Log directory page: those with a non-zero sector count.
pub open spec fn log_pages_upto(data: Seq<u8>, n: int) -> Seq<AtaLogPageSupport>
    decreases n,
{
    if n <= 1 {
        seq![]
    } else {
        let rest = log_pages_upto(data, n - 1);
        if ata_word(data, n - 1) != 0 {
            rest.push(AtaLogPageSupport { address: (n - 1) as u8, sectors: ata_word(data, n - 1) })
        } else {
            rest
        }
    }
}

/// Parses the General Purpose Log directory (log address 0): its version
/// word and the pages it lists as supported.
pub fn parse_log_directory(data: &[u8]) -> (r: Result<AtaLogDirectory, AtaParseError>)
    ensures
        data@.len() != 512 ==> r == Err::<AtaLogDirectory, AtaParseError>(
            AtaParseError::WrongLength { expected: 512, actual: data@.len() as usize },
        ),
        data@.len() == 512 ==> (r matches Ok(d) && d.version == ata_word(data@, 0)
            && d.supported_pages@ == log_pages_upto(data@, 256)),
{
    if data.len() != ATA_PAGE_LEN {
        return Err(AtaParseError::WrongLength { expected: ATA_PAGE_LEN, actual: data.len() });
    }
    let mut pages: Vec<AtaLogPageSupport> = Vec::new();
    let mut address: usize = 1;
    while address < 256
        invariant
            data@.len() == 512,
            1 <= address <= 256,
            pages@ == log_pages_upto(data@, address as int),
        decreases 256 - address,
    {
        let sectors = word_at(data, address);
        if sectors != 0 {
            pages.push(AtaLogPageSupport { address: address as u8, sectors });
        }
        address = address + 1;
    }
    Ok(AtaLogDirectory { version: word_at(data, 0), supported_pages: pages })
}

} // verus!
