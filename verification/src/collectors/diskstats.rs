//! `/proc/diskstats`: the snapshot parser and the integer part of an
//! interval between two snapshots of one device.
use vstd::prelude::*;
use vstd::string::*;

use crate::text::{
    blank,
    decimal_chars,
    decimal_text,
    is_blank,
    parse_unsigned,
    range_bytes,
    ranges_bytes,
    ranges_within,
    split_lines,
    split_tokens,
    text_lines,
    tokens,
    unsigned_value,
    utf8_lossy,
    decode_lossy,
};

verus! {

#[derive(Debug, Clone, PartialEq, Eq)]
pub struct DiskStat {
    pub major: u32,
    pub minor: u32,
    pub name: String,
    pub reads_completed: u64,
    pub reads_merged: u64,
    pub sectors_read: u64,
    pub time_reading_ms: u64,
    pub writes_completed: u64,
    pub writes_merged: u64,
    pub sectors_written: u64,
    pub time_writing_ms: u64,
    pub ios_in_progress: u64,
    pub io_ticks_ms: u64,
    pub weighted_time_in_queue_ms: u64,
    pub discards_completed: Option<u64>,
    pub discards_merged: Option<u64>,
    pub sectors_discarded: Option<u64>,
    pub time_discarding_ms: Option<u64>,
    pub flush_requests: Option<u64>,
    pub time_flushing_ms: Option<u64>,
}

/// A device record with its name taken as text.
pub struct DiskStatView {
    pub major: u32,
    pub minor: u32,
    pub name: Seq<char>,
    pub reads_completed: u64,
    pub reads_merged: u64,
    pub sectors_read: u64,
    pub time_reading_ms: u64,
    pub writes_completed: u64,
    pub writes_merged: u64,
    pub sectors_written: u64,
    pub time_writing_ms: u64,
    pub ios_in_progress: u64,
    pub io_ticks_ms: u64,
    pub weighted_time_in_queue_ms: u64,
    pub discards_completed: Option<u64>,
    pub discards_merged: Option<u64>,
    pub sectors_discarded: Option<u64>,
    pub time_discarding_ms: Option<u64>,
    pub flush_requests: Option<u64>,
    pub time_flushing_ms: Option<u64>,
}

impl View for DiskStat {
    type V = DiskStatView;

    open spec fn view(&self) -> DiskStatView {
        DiskStatView {
            major: self.major,
            minor: self.minor,
            name: self.name@,
            reads_completed: self.reads_completed,
            reads_merged: self.reads_merged,
            sectors_read: self.sectors_read,
            time_reading_ms: self.time_reading_ms,
            writes_completed: self.writes_completed,
            writes_merged: self.writes_merged,
            sectors_written: self.sectors_written,
            time_writing_ms: self.time_writing_ms,
            ios_in_progress: self.ios_in_progress,
            io_ticks_ms: self.io_ticks_ms,
            weighted_time_in_queue_ms: self.weighted_time_in_queue_ms,
            discards_completed: self.discards_completed,
            discards_merged: self.discards_merged,
            sectors_discarded: self.sectors_discarded,
            time_discarding_ms: self.time_discarding_ms,
            flush_requests: self.flush_requests,
            time_flushing_ms: self.time_flushing_ms,
        }
    }
}

#[derive(Debug)]
pub enum DiskstatsError {
    Read(std::io::Error),
    Parse { line: usize, reason: String },
}

#[derive(Debug, Clone, PartialEq, Eq)]
pub struct DiskstatsSubject {
    pub name: String,
    pub dev_t: Option<(u32, u32)>,
    pub diskseq: Option<u64>,
}

/// The name of base counter `k` in the order of the file.
pub open spec fn counter_label(k: int) -> Seq<char> {
    if k == 0 {
        "reads_completed"@
    } else if k == 1 {
        "reads_merged"@
    } else if k == 2 {
        "sectors_read"@
    } else if k == 3 {
        "time_reading_ms"@
    } else if k == 4 {
        "writes_completed"@
    } else if k == 5 {
        "writes_merged"@
    } else if k == 6 {
        "sectors_written"@
    } else if k == 7 {
        "time_writing_ms"@
    } else if k == 8 {
        "ios_in_progress"@
    } else if k == 9 {
        "io_ticks_ms"@
    } else {
        "weighted_time_in_queue_ms"@
    }
}

fn counter_name(k: usize) -> (t: &'static str)
    ensures
        t@ == counter_label(k as int),
{
    if k == 0 {
        "reads_completed"
    } else if k == 1 {
        "reads_merged"
    } else if k == 2 {
        "sectors_read"
    } else if k == 3 {
        "time_reading_ms"
    } else if k == 4 {
        "writes_completed"
    } else if k == 5 {
        "writes_merged"
    } else if k == 6 {
        "sectors_written"
    } else if k == 7 {
        "time_writing_ms"
    } else if k == 8 {
        "ios_in_progress"
    } else if k == 9 {
        "io_ticks_ms"
    } else {
        "weighted_time_in_queue_ms"
    }
}

/// Whether a field is an unsigned integer no greater than `max`.
pub open spec fn field_ok(f: Seq<u8>, max: nat) -> bool {
    unsigned_value(f, max) is Some
}

/// The value of a field that is an unsigned integer.
pub open spec fn field_value(f: Seq<u8>) -> u64 {
    match unsigned_value(f, u64::MAX as nat) {
        Some(v) => v as u64,
        None => 0,
    }
}

/// The first base counter (0 to 10) of `fields` from `k` on that is not
/// an unsigned integer.
pub open spec fn first_bad_counter(fields: Seq<Seq<u8>>, k: int) -> Option<int>
    decreases 11 - k,
{
    if k >= 11 {
        None
    } else if !field_ok(fields[k + 3], u64::MAX as nat) {
        Some(k)
    } else {
        first_bad_counter(fields, k + 1)
    }
}

/// Whether an optional counter (11 to 16) present in `fields` from `k` on
/// is not an unsigned integer.
pub open spec fn bad_optional_counter(fields: Seq<Seq<u8>>, k: int) -> bool
    decreases 17 - k,
{
    if k >= 17 {
        false
    } else if fields.len() - 3 > k && !field_ok(fields[k + 3], u64::MAX as nat) {
        true
    } else {
        bad_optional_counter(fields, k + 1)
    }
}

pub open spec fn not_unsigned(name: Seq<char>) -> Seq<char> {
    name + " is not an unsigned integer"@
}

/// Why the fields of a line are not a device record, if they are not.
/// After major, minor and name there are 11 base counters, then 4 discard
/// counters and 2 flush counters; a partial optional group is an error and
/// counters past the flush group are ignored.
pub open spec fn line_reason(fields: Seq<Seq<u8>>) -> Option<Seq<char>> {
    let count = fields.len() - 3;
    if fields.len() < 14 {
        Some("requires major, minor, name and 11 base counters"@)
    } else if (12 <= count <= 14) || count == 16 {
        Some(
            "incomplete optional counter group ("@ + decimal_chars(count as nat)
                + " counters)"@,
        )
    } else if !field_ok(fields[0], u32::MAX as nat) {
        Some(not_unsigned("major"@))
    } else if !field_ok(fields[1], u32::MAX as nat) {
        Some(not_unsigned("minor"@))
    } else if first_bad_counter(fields, 0) is Some {
        Some(not_unsigned(counter_label(first_bad_counter(fields, 0)->0)))
    } else if bad_optional_counter(fields, 11) {
        Some(not_unsigned("optional counter"@))
    } else {
        None
    }
}

/// Optional counter `k` (11 to 16), when the line has it.
pub open spec fn optional_counter(fields: Seq<Seq<u8>>, k: int) -> Option<u64> {
    if fields.len() - 3 > k {
        Some(field_value(fields[k + 3]))
    } else {
        None
    }
}

/// The record that valid `fields` describe.
pub open spec fn record_of(fields: Seq<Seq<u8>>) -> DiskStatView {
    DiskStatView {
        major: field_value(fields[0]) as u32,
        minor: field_value(fields[1]) as u32,
        name: utf8_lossy(fields[2]),
        reads_completed: field_value(fields[3]),
        reads_merged: field_value(fields[4]),
        sectors_read: field_value(fields[5]),
        time_reading_ms: field_value(fields[6]),
        writes_completed: field_value(fields[7]),
        writes_merged: field_value(fields[8]),
        sectors_written: field_value(fields[9]),
        time_writing_ms: field_value(fields[10]),
        ios_in_progress: field_value(fields[11]),
        io_ticks_ms: field_value(fields[12]),
        weighted_time_in_queue_ms: field_value(fields[13]),
        discards_completed: optional_counter(fields, 11),
        discards_merged: optional_counter(fields, 12),
        sectors_discarded: optional_counter(fields, 13),
        time_discarding_ms: optional_counter(fields, 14),
        flush_requests: optional_counter(fields, 15),
        time_flushing_ms: optional_counter(fields, 16),
    }
}

/// Whether `stat` is the record that valid `fields` describe.
pub open spec fn stat_matches(fields: Seq<Seq<u8>>, stat: DiskStat) -> bool {
    stat@ == record_of(fields)
}

/// `r` is the outcome for the fields of line `n`.
pub open spec fn line_outcome(fields: Seq<Seq<u8>>, n: usize, r: Result<DiskStat, DiskstatsError>) -> bool {
    match line_reason(fields) {
        Some(reason) => r matches Err(DiskstatsError::Parse { line, reason: text }) && line == n
            && text@ == reason,
        None => r matches Ok(stat) && stat_matches(fields, stat),
    }
}

fn parse_error(line: usize, reason: String) -> (e: DiskstatsError)
    ensures
        e matches DiskstatsError::Parse { line: l, reason: text } && l == line && text@ == reason@,
{
    DiskstatsError::Parse { line, reason }
}

fn not_unsigned_text(name: &str) -> (t: String)
    ensures
        t@ == not_unsigned(name@),
{
    String::from_str(name).concat(" is not an unsigned integer")
}

fn field_at<'a>(line: &'a [u8], fields: &Vec<(usize, usize)>, k: usize) -> (f: &'a [u8])
    requires
        k < fields@.len(),
        ranges_within(line@, fields@),
    ensures
        f@ == range_bytes(line@, fields@[k as int]),
{
    let (start, end) = fields[k];
    vstd::slice::slice_subrange(line, start, end)
}

/// Parses one non-blank line numbered `line_number` (from 1).
fn parse_line(line: &[u8], line_number: usize) -> (r: Result<DiskStat, DiskstatsError>)
    ensures
        line_outcome(tokens(line@), line_number, r),
{
    let fields = split_tokens(line);
    let ghost fs = tokens(line@);
    assert(fs.len() == fields@.len());
    if fields.len() < 14 {
        return Err(
            parse_error(line_number, String::from_str("requires major, minor, name and 11 base counters")),
        );
    }
    let count = fields.len() - 3;
    if (12 <= count && count <= 14) || count == 16 {
        let reason = String::from_str("incomplete optional counter group (").concat(
            decimal_text(count as u64).as_str(),
        ).concat(" counters)");
        return Err(parse_error(line_number, reason));
    }
    let major = match parse_unsigned(field_at(line, &fields, 0), 0xffff_ffff) {
        Some(v) => v as u32,
        None => {
            return Err(parse_error(line_number, not_unsigned_text("major")));
        },
    };
    let minor = match parse_unsigned(field_at(line, &fields, 1), 0xffff_ffff) {
        Some(v) => v as u32,
        None => {
            return Err(parse_error(line_number, not_unsigned_text("minor")));
        },
    };
    let mut base: Vec<u64> = Vec::new();
    let mut k: usize = 0;
    while k < 11
        invariant
            fs == tokens(line@),
            ranges_bytes(line@, fields@) == fs,
            ranges_within(line@, fields@),
            fields@.len() >= 14,
            count == fields@.len() - 3,
            !((12 <= count <= 14) || count == 16),
            field_ok(fs[0], u32::MAX as nat),
            field_ok(fs[1], u32::MAX as nat),
            k <= 11,
            base@.len() == k,
            forall|j: int| 0 <= j < k ==> base@[j] == field_value(fs[j + 3]),
            first_bad_counter(fs, 0) == first_bad_counter(fs, k as int),
        decreases 11 - k,
    {
        match parse_unsigned(field_at(line, &fields, k + 3), 0xffff_ffff_ffff_ffff) {
            Some(v) => {
                base.push(v);
            },
            None => {
                return Err(parse_error(line_number, not_unsigned_text(counter_name(k))));
            },
        }
        k = k + 1;
    }
    let mut optional: Vec<Option<u64>> = Vec::new();
    let mut k: usize = 11;
    while k < 17
        invariant
            fs == tokens(line@),
            ranges_bytes(line@, fields@) == fs,
            ranges_within(line@, fields@),
            count == fields@.len() - 3,
            11 <= k <= 17,
            optional@.len() == k - 11,
            first_bad_counter(fs, 0) is None,
            field_ok(fs[0], u32::MAX as nat),
            field_ok(fs[1], u32::MAX as nat),
            !((12 <= count <= 14) || count == 16),
            fields@.len() >= 14,
            bad_optional_counter(fs, 11) == bad_optional_counter(fs, k as int),
            forall|j: int| 11 <= j < k ==> optional@[j - 11] == optional_counter(fs, j),
        decreases 17 - k,
    {
        if count > k {
            match parse_unsigned(field_at(line, &fields, k + 3), 0xffff_ffff_ffff_ffff) {
                Some(v) => {
                    optional.push(Some(v));
                },
                None => {
                    return Err(parse_error(line_number, not_unsigned_text("optional counter")));
                },
            }
        } else {
            optional.push(None);
        }
        k = k + 1;
    }
    let (start, end) = fields[2];
    let name = decode_lossy(vstd::slice::slice_subrange(line, start, end));
    Ok(
        DiskStat {
            major,
            minor,
            name,
            reads_completed: base[0],
            reads_merged: base[1],
            sectors_read: base[2],
            time_reading_ms: base[3],
            writes_completed: base[4],
            writes_merged: base[5],
            sectors_written: base[6],
            time_writing_ms: base[7],
            ios_in_progress: base[8],
            io_ticks_ms: base[9],
            weighted_time_in_queue_ms: base[10],
            discards_completed: optional[0],
            discards_merged: optional[1],
            sectors_discarded: optional[2],
            time_discarding_ms: optional[3],
            flush_requests: optional[4],
            time_flushing_ms: optional[5],
        },
    )
}


/// The non-blank lines among the first `k` of `lines`, each with its
/// number counted from 1.
pub open spec fn numbered_records(lines: Seq<Seq<u8>>, k: int) -> Seq<(int, Seq<u8>)>
    decreases k,
{
    if k <= 0 {
        seq![]
    } else {
        let rest = numbered_records(lines, k - 1);
        if is_blank(lines[k - 1]) {
            rest
        } else {
            rest.push((k, lines[k - 1]))
        }
    }
}

/// The first of the first `j` records that is not a device record: its
/// line number and the reason.
pub open spec fn first_error_upto(rs: Seq<(int, Seq<u8>)>, j: int) -> Option<(int, Seq<char>)>
    decreases j,
{
    if j <= 0 {
        None
    } else {
        match first_error_upto(rs, j - 1) {
            Some(e) => Some(e),
            None => match line_reason(tokens(rs[j - 1].1)) {
                Some(reason) => Some((rs[j - 1].0, reason)),
                None => None,
            },
        }
    }
}

/// The records of a snapshot: its non-blank lines, numbered.
pub open spec fn snapshot_records(content: Seq<u8>) -> Seq<(int, Seq<u8>)> {
    numbered_records(text_lines(content), text_lines(content).len() as int)
}

proof fn lemma_records_prefix(lines: Seq<Seq<u8>>, k: int, m: int)
    requires
        0 <= k <= m,
    ensures
        numbered_records(lines, k).len() <= numbered_records(lines, m).len(),
        forall|j: int|
            0 <= j < numbered_records(lines, k).len() ==> numbered_records(lines, m)[j]
                == #[trigger] numbered_records(lines, k)[j],
    decreases m - k,
{
    if k < m {
        lemma_records_prefix(lines, k, m - 1);
    }
}

proof fn lemma_first_error_agree(a: Seq<(int, Seq<u8>)>, b: Seq<(int, Seq<u8>)>, j: int)
    requires
        0 <= j <= a.len(),
        j <= b.len(),
        forall|i: int| 0 <= i < j ==> a[i] == b[i],
    ensures
        first_error_upto(a, j) == first_error_upto(b, j),
    decreases j,
{
    if j > 0 {
        lemma_first_error_agree(a, b, j - 1);
    }
}

proof fn lemma_first_error_stays(rs: Seq<(int, Seq<u8>)>, j: int, m: int)
    requires
        0 <= j <= m,
        first_error_upto(rs, j) is Some,
    ensures
        first_error_upto(rs, m) == first_error_upto(rs, j),
    decreases m - j,
{
    if j < m {
        lemma_first_error_stays(rs, j, m - 1);
    }
}

/// Parses a whole `/proc/diskstats` snapshot. Blank lines are skipped; the
/// first line that is not a device record fails the snapshot, naming its
/// line number.
pub fn parse_snapshot(content: &str) -> (r: Result<Vec<DiskStat>, DiskstatsError>)
    ensures
        match first_error_upto(
            snapshot_records(content.spec_bytes()),
            snapshot_records(content.spec_bytes()).len() as int,
        ) {
            Some((n, reason)) => r matches Err(DiskstatsError::Parse { line, reason: text }) && line
                == n && text@ == reason,
            None => r matches Ok(v) && v@.len() == snapshot_records(content.spec_bytes()).len()
                && forall|j: int|
                0 <= j < v@.len() ==> stat_matches(
                    tokens(snapshot_records(content.spec_bytes())[j].1),
                    #[trigger] v@[j],
                ),
        },
{
    let bytes = content.as_bytes();
    let lines = split_lines(bytes);
    let ghost ls = text_lines(bytes@);
    let ghost total = ls.len() as int;
    assert(ls.len() == lines@.len());
    let mut stats: Vec<DiskStat> = Vec::new();
    let mut i: usize = 0;
    while i < lines.len()
        invariant
            bytes@ == content.spec_bytes(),
            ls == text_lines(bytes@),
            total == ls.len(),
            ranges_bytes(bytes@, lines@) == ls,
            ranges_within(bytes@, lines@),
            i <= lines@.len(),
            stats@.len() == numbered_records(ls, i as int).len(),
            forall|j: int|
                0 <= j < stats@.len() ==> stat_matches(
                    tokens(numbered_records(ls, i as int)[j].1),
                    #[trigger] stats@[j],
                ),
            first_error_upto(
                numbered_records(ls, i as int),
                numbered_records(ls, i as int).len() as int,
            ) is None,
        decreases lines@.len() - i,
    {
        let (start, end) = lines[i];
        let line = vstd::slice::slice_subrange(bytes, start, end);
        assert(line@ == ls[i as int]);
        let ghost before = numbered_records(ls, i as int);
        let ghost after = numbered_records(ls, i + 1);
        if !blank(line) {
            assert(after == before.push((i + 1, ls[i as int])));
            assert(first_error_upto(after, after.len() - 1) == first_error_upto(before, before.len() as int)) by {
                lemma_first_error_agree(after, before, before.len() as int);
            }
            match parse_line(line, i + 1) {
                Ok(stat) => {
                    stats.push(stat);
                },
                Err(e) => {
                    proof {
                        assert(after[after.len() - 1] == (i + 1, ls[i as int]));
                        let rs = numbered_records(ls, total);
                        lemma_records_prefix(ls, i + 1, total);
                        lemma_first_error_agree(rs, after, after.len() as int);
                        lemma_first_error_stays(rs, after.len() as int, rs.len() as int);
                    }
                    return Err(e);
                },
            }
        } else {
            assert(after == before);
        }
        i = i + 1;
    }
    Ok(stats)
}


/// The integer counts of one interval of a device: the counter increases
/// and the elapsed time. Rates are derived from these by the caller.
#[derive(Debug, Clone, Copy, PartialEq, Eq, Structural)]
pub struct IntervalCounters {
    pub reads: u64,
    pub sectors_read: u64,
    pub read_time_ms: u64,
    pub writes: u64,
    pub sectors_written: u64,
    pub write_time_ms: u64,
    pub io_ticks_ms: u64,
    pub weighted_time_ms: u64,
    pub ios_in_progress: u64,
    pub elapsed_nanos: u128,
}

/// The interval between two samples of one device, or `None` when there is
/// none to report: no time elapsed, the device number changed, or a
/// counter went backwards (a reset or a replaced device).
pub open spec fn interval_of(previous: DiskStatView, current: DiskStatView, elapsed_nanos: u128) -> Option<
    IntervalCounters,
> {
    if elapsed_nanos == 0 || previous.major != current.major || previous.minor != current.minor
        || current.reads_completed < previous.reads_completed || current.sectors_read
        < previous.sectors_read || current.time_reading_ms < previous.time_reading_ms
        || current.writes_completed < previous.writes_completed || current.sectors_written
        < previous.sectors_written || current.time_writing_ms < previous.time_writing_ms
        || current.io_ticks_ms < previous.io_ticks_ms || current.weighted_time_in_queue_ms
        < previous.weighted_time_in_queue_ms {
        None
    } else {
        Some(
            IntervalCounters {
                reads: (current.reads_completed - previous.reads_completed) as u64,
                sectors_read: (current.sectors_read - previous.sectors_read) as u64,
                read_time_ms: (current.time_reading_ms - previous.time_reading_ms) as u64,
                writes: (current.writes_completed - previous.writes_completed) as u64,
                sectors_written: (current.sectors_written - previous.sectors_written) as u64,
                write_time_ms: (current.time_writing_ms - previous.time_writing_ms) as u64,
                io_ticks_ms: (current.io_ticks_ms - previous.io_ticks_ms) as u64,
                weighted_time_ms: (current.weighted_time_in_queue_ms
                    - previous.weighted_time_in_queue_ms) as u64,
                ios_in_progress: current.ios_in_progress,
                elapsed_nanos,
            },
        )
    }
}

pub fn interval_counters(previous: &DiskStat, current: &DiskStat, elapsed_nanos: u128) -> (r:
    Option<IntervalCounters>)
    ensures
        r == interval_of(previous@, current@, elapsed_nanos),
{
    if elapsed_nanos == 0 || previous.major != current.major || previous.minor != current.minor {
        return None;
    }
    let reads = current.reads_completed.checked_sub(previous.reads_completed)?;
    let sectors_read = current.sectors_read.checked_sub(previous.sectors_read)?;
    let read_time_ms = current.time_reading_ms.checked_sub(previous.time_reading_ms)?;
    let writes = current.writes_completed.checked_sub(previous.writes_completed)?;
    let sectors_written = current.sectors_written.checked_sub(previous.sectors_written)?;
    let write_time_ms = current.time_writing_ms.checked_sub(previous.time_writing_ms)?;
    let io_ticks_ms = current.io_ticks_ms.checked_sub(previous.io_ticks_ms)?;
    let weighted_time_ms = current.weighted_time_in_queue_ms.checked_sub(
        previous.weighted_time_in_queue_ms,
    )?;
    Some(
        IntervalCounters {
            reads,
            sectors_read,
            read_time_ms,
            writes,
            sectors_written,
            write_time_ms,
            io_ticks_ms,
            weighted_time_ms,
            ios_in_progress: current.ios_in_progress,
            elapsed_nanos,
        },
    )
}


/// What the sampler keeps of a device between snapshots.
#[derive(Debug)]
pub struct PreviousSample {
    pub name: String,
    pub stat: DiskStat,
    pub observed_at_nanos: u128,
    pub diskseq: Option<u64>,
}

pub struct SampleView {
    pub name: Seq<char>,
    pub stat: DiskStatView,
    pub observed_at_nanos: u128,
    pub diskseq: Option<u64>,
}

impl View for PreviousSample {
    type V = SampleView;

    open spec fn view(&self) -> SampleView {
        SampleView {
            name: self.name@,
            stat: self.stat@,
            observed_at_nanos: self.observed_at_nanos,
            diskseq: self.diskseq,
        }
    }
}

/// Keeps the previous sample of each selected device. The first sample of
/// a device is only a baseline; an interval appears from the next one.
#[derive(Debug)]
pub struct DiskstatsSampler {
    previous: Vec<PreviousSample>,
}

impl Default for DiskstatsSampler {
    fn default() -> (r: DiskstatsSampler)
        ensures
            r.samples() == Seq::<SampleView>::empty(),
    {
        let r = DiskstatsSampler { previous: Vec::new() };
        assert(r.samples() =~= Seq::<SampleView>::empty());
        r
    }
}

/// The views of the stats of a snapshot.
pub open spec fn stats_view(v: Seq<DiskStat>) -> Seq<DiskStatView> {
    v.map_values(|s: DiskStat| s@)
}

/// The last record of a snapshot with this device name.
pub open spec fn last_stat(stats: Seq<DiskStatView>, name: Seq<char>) -> Option<DiskStatView>
    decreases stats.len(),
{
    if stats.len() == 0 {
        None
    } else if stats.last().name == name {
        Some(stats.last())
    } else {
        last_stat(stats.drop_last(), name)
    }
}

pub open spec fn selected(subjects: Seq<DiskstatsSubject>, name: Seq<char>) -> bool {
    exists|i: int| 0 <= i < subjects.len() && #[trigger] subjects[i].name@ == name
}

/// The current record of a device, when it is selected and present.
pub open spec fn current_of(
    stats: Seq<DiskStatView>,
    subjects: Seq<DiskstatsSubject>,
    name: Seq<char>,
) -> Option<DiskStatView> {
    if selected(subjects, name) {
        last_stat(stats, name)
    } else {
        None
    }
}

/// Index of the first sample with this name from `i` on, or -1.
pub open spec fn find_from(v: Seq<SampleView>, name: Seq<char>, i: int) -> int
    decreases v.len() - i,
{
    if i < 0 || i >= v.len() {
        -1
    } else if v[i].name == name {
        i
    } else {
        find_from(v, name, i + 1)
    }
}

pub open spec fn find_sample(v: Seq<SampleView>, name: Seq<char>) -> int {
    find_from(v, name, 0)
}

/// Records `s` as the sample of its device.
pub open spec fn put_sample(v: Seq<SampleView>, s: SampleView) -> Seq<SampleView> {
    if find_sample(v, s.name) >= 0 {
        v.update(find_sample(v, s.name), s)
    } else {
        v.push(s)
    }
}

/// Forgets the sample of a device.
pub open spec fn remove_sample(v: Seq<SampleView>, name: Seq<char>) -> Seq<SampleView> {
    if find_sample(v, name) >= 0 {
        v.remove(find_sample(v, name))
    } else {
        v
    }
}

/// Time from `at` to `now`, zero if `now` is earlier.
pub open spec fn elapsed_since(now: u128, at: u128) -> u128 {
    if now >= at {
        (now - at) as u128
    } else {
        0
    }
}

/// One subject of a sampling round: absent devices are skipped, a device
/// whose number changed loses its baseline, and otherwise an interval is
/// reported when the previous sample is of the same generation, before the
/// current record becomes the new baseline.
pub open spec fn sample_step(
    state: (Seq<SampleView>, Seq<(Seq<char>, IntervalCounters)>),
    subject: DiskstatsSubject,
    stats: Seq<DiskStatView>,
    subjects: Seq<DiskstatsSubject>,
    now: u128,
) -> (Seq<SampleView>, Seq<(Seq<char>, IntervalCounters)>) {
    let (prev, out) = state;
    let name = subject.name@;
    match current_of(stats, subjects, name) {
        None => state,
        Some(cur) => if subject.dev_t matches Some(d) && (d.0 != cur.major || d.1 != cur.minor) {
            (remove_sample(prev, name), out)
        } else {
            let i = find_sample(prev, name);
            let interval = if i >= 0 && prev[i].diskseq == subject.diskseq {
                interval_of(prev[i].stat, cur, elapsed_since(now, prev[i].observed_at_nanos))
            } else {
                None
            };
            (
                put_sample(
                    prev,
                    SampleView { name, stat: cur, observed_at_nanos: now, diskseq: subject.diskseq },
                ),
                match interval {
                    Some(c) => out.push((name, c)),
                    None => out,
                },
            )
        },
    }
}

/// The first `k` subjects of a round, in order.
pub open spec fn sample_fold(
    start: (Seq<SampleView>, Seq<(Seq<char>, IntervalCounters)>),
    subjects: Seq<DiskstatsSubject>,
    k: int,
    stats: Seq<DiskStatView>,
    now: u128,
) -> (Seq<SampleView>, Seq<(Seq<char>, IntervalCounters)>)
    decreases k,
{
    if k <= 0 {
        start
    } else {
        sample_step(sample_fold(start, subjects, k - 1, stats, now), subjects[k - 1], stats, subjects, now)
    }
}

/// Whether a baseline is kept for a round: its device is selected and
/// present in the snapshot.
pub open spec fn kept_in(stats: Seq<DiskStatView>, subjects: Seq<DiskstatsSubject>) -> spec_fn(
    SampleView,
) -> bool {
    |p: SampleView| current_of(stats, subjects, p.name) is Some
}

/// A round keeps only the baselines of selected devices present in the
/// snapshot, then runs every subject in order.
pub open spec fn sample_round(
    prev: Seq<SampleView>,
    stats: Seq<DiskStatView>,
    subjects: Seq<DiskstatsSubject>,
    now: u128,
) -> (Seq<SampleView>, Seq<(Seq<char>, IntervalCounters)>) {
    sample_fold(
        (prev.filter(kept_in(stats, subjects)), seq![]),
        subjects,
        subjects.len() as int,
        stats,
        now,
    )
}

pub open spec fn intervals_view(v: Seq<(String, IntervalCounters)>) -> Seq<(Seq<char>, IntervalCounters)> {
    v.map_values(|e: (String, IntervalCounters)| (e.0@, e.1))
}

/// The device records of a snapshot without errors.
pub open spec fn snapshot_stats(content: Seq<u8>) -> Seq<DiskStatView> {
    snapshot_records(content).map_values(|r: (int, Seq<u8>)| record_of(tokens(r.1)))
}

fn copy_stat(s: &DiskStat) -> (r: DiskStat)
    ensures
        r@ == s@,
{
    DiskStat {
        major: s.major,
        minor: s.minor,
        name: s.name.clone(),
        reads_completed: s.reads_completed,
        reads_merged: s.reads_merged,
        sectors_read: s.sectors_read,
        time_reading_ms: s.time_reading_ms,
        writes_completed: s.writes_completed,
        writes_merged: s.writes_merged,
        sectors_written: s.sectors_written,
        time_writing_ms: s.time_writing_ms,
        ios_in_progress: s.ios_in_progress,
        io_ticks_ms: s.io_ticks_ms,
        weighted_time_in_queue_ms: s.weighted_time_in_queue_ms,
        discards_completed: s.discards_completed,
        discards_merged: s.discards_merged,
        sectors_discarded: s.sectors_discarded,
        time_discarding_ms: s.time_discarding_ms,
        flush_requests: s.flush_requests,
        time_flushing_ms: s.time_flushing_ms,
    }
}

fn is_selected(subjects: &[DiskstatsSubject], name: &String) -> (r: bool)
    ensures
        r == selected(subjects@, name@),
{
    let mut i: usize = 0;
    while i < subjects.len()
        invariant
            i <= subjects@.len(),
            forall|k: int| 0 <= k < i ==> subjects@[k].name@ != name@,
        decreases subjects@.len() - i,
    {
        if subjects[i].name == *name {
            assert(subjects@[i as int].name@ == name@);
            return true;
        }
        i = i + 1;
    }
    false
}

fn current_index(stats: &Vec<DiskStat>, subjects: &[DiskstatsSubject], name: &String) -> (r: Option<
    usize,
>)
    ensures
        match current_of(stats_view(stats@), subjects@, name@) {
            None => r is None,
            Some(s) => r matches Some(i) && i < stats@.len() && stats@[i as int]@ == s,
        },
{
    if !is_selected(subjects, name) {
        return None;
    }
    let ghost sv = stats_view(stats@);
    let mut i: usize = stats.len();
    assert(sv.take(i as int) =~= sv);
    while i > 0
        invariant
            sv == stats_view(stats@),
            i <= stats@.len(),
            selected(subjects@, name@),
            last_stat(sv, name@) == last_stat(sv.take(i as int), name@),
        decreases i,
    {
        assert(sv.take(i as int).drop_last() =~= sv.take(i - 1));
        if stats[i - 1].name == *name {
            return Some(i - 1);
        }
        i = i - 1;
    }
    None
}

fn find_index(prev: &Vec<PreviousSample>, name: &String, Ghost(v): Ghost<Seq<SampleView>>) -> (r: Option<
    usize,
>)
    requires
        v == prev@.map_values(|p: PreviousSample| p@),
    ensures
        r matches Some(i) ==> i as int == find_sample(v, name@) && i < prev@.len(),
        r is None ==> find_sample(v, name@) < 0,
{
    let mut i: usize = 0;
    while i < prev.len()
        invariant
            v == prev@.map_values(|p: PreviousSample| p@),
            i <= prev@.len(),
            find_sample(v, name@) == find_from(v, name@, i as int),
        decreases prev@.len() - i,
    {
        if prev[i].name == *name {
            assert(v[i as int].name == name@);
            return Some(i);
        }
        i = i + 1;
    }
    None
}

impl DiskstatsSampler {
    /// The baselines kept, one per device.
    pub closed spec fn samples(&self) -> Seq<SampleView> {
        self.previous@.map_values(|p: PreviousSample| p@)
    }

    /// The number of devices with a baseline.
    pub fn baseline_count(&self) -> (r: usize)
        ensures
            r == self.samples().len(),
    {
        self.previous.len()
    }

    /// Runs one round on a snapshot taken at `now_nanos` (monotonic). An
    /// unparsable snapshot leaves the baselines unchanged.
    pub fn sample_content(
        &mut self,
        content: &str,
        now_nanos: u128,
        subjects: &[DiskstatsSubject],
    ) -> (r: Result<Vec<(String, IntervalCounters)>, DiskstatsError>)
        ensures
            match first_error_upto(
                snapshot_records(content.spec_bytes()),
                snapshot_records(content.spec_bytes()).len() as int,
            ) {
                Some((n, reason)) => r matches Err(DiskstatsError::Parse { line, reason: text })
                    && line == n && text@ == reason && final(self).samples() == old(self).samples(),
                None => r matches Ok(out) && (final(self).samples(), intervals_view(out@))
                    == sample_round(
                    old(self).samples(),
                    snapshot_stats(content.spec_bytes()),
                    subjects@,
                    now_nanos,
                ),
            },
    {
        let stats = parse_snapshot(content)?;
        let ghost sv = stats_view(stats@);
        assert(sv =~= snapshot_stats(content.spec_bytes()));
        let ghost start = self.samples();
        let mut kept: Vec<PreviousSample> = Vec::new();
        let mut j: usize = 0;
        proof {
            reveal(Seq::filter);
        }
        while j < self.previous.len()
            invariant
                sv == stats_view(stats@),
                start == self.samples(),
                j <= self.previous@.len(),
                kept@.map_values(|p: PreviousSample| p@) == start.take(j as int).filter(
                    kept_in(sv, subjects@),
                ),
            decreases self.previous@.len() - j,
        {
            proof {
                reveal(Seq::filter);
            }
            assert(start.take(j + 1).drop_last() =~= start.take(j as int));
            assert(start.take(j + 1).last() == start[j as int]);
            assert(start[j as int] == self.previous@[j as int]@);
            let ghost before = kept@.map_values(|p: PreviousSample| p@);
            if current_index(&stats, subjects, &self.previous[j].name).is_some() {
                let p = &self.previous[j];
                kept.push(
                    PreviousSample {
                        name: p.name.clone(),
                        stat: copy_stat(&p.stat),
                        observed_at_nanos: p.observed_at_nanos,
                        diskseq: p.diskseq,
                    },
                );
                assert(kept@.map_values(|p: PreviousSample| p@) =~= before.push(start[j as int]));
            }
            j = j + 1;
        }
        assert(start.take(start.len() as int) =~= start);
        self.previous = kept;
        let mut out: Vec<(String, IntervalCounters)> = Vec::new();
        assert(intervals_view(out@) =~= Seq::<(Seq<char>, IntervalCounters)>::empty());
        let mut k: usize = 0;
        while k < subjects.len()
            invariant
                sv == stats_view(stats@),
                k <= subjects@.len(),
                (self.samples(), intervals_view(out@)) == sample_fold(
                    (start.filter(kept_in(sv, subjects@)), seq![]),
                    subjects@,
                    k as int,
                    sv,
                    now_nanos,
                ),
            decreases subjects@.len() - k,
        {
            let subject = &subjects[k];
            let ghost prev = self.samples();
            let ghost outs = intervals_view(out@);
            match current_index(&stats, subjects, &subject.name) {
                None => {},
                Some(c) => {
                    let current = &stats[c];
                    let moved = match subject.dev_t {
                        Some(d) => d.0 != current.major || d.1 != current.minor,
                        None => false,
                    };
                    if moved {
                        match find_index(&self.previous, &subject.name, Ghost(prev)) {
                            Some(i) => {
                                let ghost old_prev = self.previous@;
                                self.previous.remove(i);
                                assert(self.previous@ == old_prev.remove(i as int));
                                assert(self.samples() =~= prev.remove(i as int));
                            },
                            None => {},
                        }
                    } else {
                        let found = find_index(&self.previous, &subject.name, Ghost(prev));
                        let sample = PreviousSample {
                            name: subject.name.clone(),
                            stat: copy_stat(current),
                            observed_at_nanos: now_nanos,
                            diskseq: subject.diskseq,
                        };
                        match found {
                            Some(i) => {
                                let p = &self.previous[i];
                                if p.diskseq == subject.diskseq {
                                    let elapsed = if now_nanos >= p.observed_at_nanos {
                                        now_nanos - p.observed_at_nanos
                                    } else {
                                        0
                                    };
                                    match interval_counters(&p.stat, current, elapsed) {
                                        Some(c) => {
                                            out.push((subject.name.clone(), c));
                                            assert(intervals_view(out@) =~= outs.push(
                                                (subject.name@, c),
                                            ));
                                        },
                                        None => {},
                                    }
                                }
                                let ghost view = sample@;
                                assert(view == SampleView { name: subject.name@, stat: current@, observed_at_nanos: now_nanos, diskseq: subject.diskseq });
                                self.previous.set(i, sample);
                                assert(self.samples() =~= prev.update(i as int, view));
                                assert(self.samples() == put_sample(prev, view));
                            },
                            None => {
                                let ghost view = sample@;
                                self.previous.push(sample);
                                assert(self.samples() =~= prev.push(view));
                                assert(self.samples() == put_sample(prev, view));
                            },
                        }
                    }
                },
            }
            assert((self.samples(), intervals_view(out@)) == sample_step(
                (prev, outs),
                subjects@[k as int],
                sv,
                subjects@,
                now_nanos,
            ));
            k = k + 1;
        }
        Ok(out)
    }
}

proof fn lemma_single_round(
    prev: Seq<SampleView>,
    stats: Seq<DiskStatView>,
    subject: DiskstatsSubject,
    now: u128,
)
    ensures
        sample_round(prev, stats, seq![subject], now) == sample_step(
            (prev.filter(kept_in(stats, seq![subject])), seq![]),
            subject,
            stats,
            seq![subject],
            now,
        ),
{
    let start = (prev.filter(kept_in(stats, seq![subject])), Seq::<(Seq<char>, IntervalCounters)>::empty());
    assert(sample_fold(start, seq![subject], 0, stats, now) == start);
    assert(seq![subject][0] == subject);
}

/// Whether no sample of `v` is of device `name`.
pub open spec fn no_sample_of(v: Seq<SampleView>, name: Seq<char>) -> bool {
    forall|k: int| 0 <= k < v.len() ==> #[trigger] v[k].name != name
}

proof fn lemma_find_from(v: Seq<SampleView>, name: Seq<char>, i: int)
    requires
        0 <= i,
    ensures
        find_from(v, name, i) == -1 ==> forall|k: int| i <= k < v.len() ==> #[trigger] v[k].name != name,
        find_from(v, name, i) != -1 ==> i <= find_from(v, name, i) < v.len() && v[find_from(v, name, i)].name
            == name && forall|k: int| i <= k < find_from(v, name, i) ==> #[trigger] v[k].name != name,
    decreases v.len() - i,
{
    if i < v.len() && v[i].name != name {
        lemma_find_from(v, name, i + 1);
    }
}

proof fn lemma_find_first(v: Seq<SampleView>, name: Seq<char>, j: int)
    requires
        0 <= j < v.len(),
        v[j].name == name,
        forall|k: int| 0 <= k < j ==> #[trigger] v[k].name != name,
    ensures
        find_sample(v, name) == j,
{
    lemma_find_from(v, name, 0);
    if find_sample(v, name) == -1 {
        assert(v[j].name != name);
    } else if find_sample(v, name) < j {
        assert(v[find_sample(v, name)].name != name);
    } else if find_sample(v, name) > j {
        assert(v[j].name != name);
    }
}

proof fn lemma_filter_no_sample(v: Seq<SampleView>, f: spec_fn(SampleView) -> bool, name: Seq<char>)
    requires
        no_sample_of(v, name),
    ensures
        no_sample_of(v.filter(f), name),
    decreases v.len(),
{
    reveal(Seq::filter);
    if v.len() > 0 {
        let w = v.drop_last();
        assert(no_sample_of(w, name)) by {
            assert forall|k: int| 0 <= k < w.len() implies #[trigger] w[k].name != name by {
                assert(w[k] == v[k]);
            }
        }
        lemma_filter_no_sample(w, f, name);
        assert(v.last() == v[v.len() - 1]);
    }
}

proof fn lemma_filter_pred_all(v: Seq<SampleView>, f: spec_fn(SampleView) -> bool)
    ensures
        forall|k: int| 0 <= k < v.filter(f).len() ==> f(#[trigger] v.filter(f)[k]),
{
    assert forall|k: int| 0 <= k < v.filter(f).len() implies f(#[trigger] v.filter(f)[k]) by {
        v.lemma_filter_pred(f, k);
    }
}

/// A round over one device that has no baseline of its own generation,
/// because it was never seen, was dropped, or carries a new disk sequence
/// number, reports nothing for it: the first sighting is only a baseline.
pub proof fn lemma_first_sighting_is_baseline(
    prev: Seq<SampleView>,
    stats: Seq<DiskStatView>,
    subject: DiskstatsSubject,
    now: u128,
)
    requires
        forall|k: int| 0 <= k < prev.len() && #[trigger] prev[k].name == subject.name@ ==> prev[k].diskseq
            != subject.diskseq,
    ensures
        sample_round(prev, stats, seq![subject], now).1 == Seq::<(Seq<char>, IntervalCounters)>::empty(),
{
    let f = kept_in(stats, seq![subject]);
    let w = prev.filter(f);
    let name = subject.name@;
    lemma_single_round(prev, stats, subject, now);
    let i = find_sample(w, name);
    lemma_find_from(w, name, 0);
    if i >= 0 {
        // The filtered sample comes from `prev`, so its generation differs.
        let x = w[i];
        assert(w.contains(x));
        assert(prev.filter(f).contains(x));
        reveal(Seq::filter);
        assert(exists|k: int| 0 <= k < prev.len() && prev[k] == x) by {
            lemma_filter_from(prev, f, i);
        }
        let k = choose|k: int| 0 <= k < prev.len() && prev[k] == x;
        assert(prev[k].name == name);
    }
}

proof fn lemma_filter_from(v: Seq<SampleView>, f: spec_fn(SampleView) -> bool, i: int)
    requires
        0 <= i < v.filter(f).len(),
    ensures
        exists|k: int| 0 <= k < v.len() && v[k] == v.filter(f)[i],
    decreases v.len(),
{
    reveal(Seq::filter);
    if v.len() > 0 {
        let w = v.drop_last();
        if i < w.filter(f).len() {
            lemma_filter_from(w, f, i);
            let k = choose|k: int| 0 <= k < w.len() && w[k] == w.filter(f)[i];
            assert(v[k] == w[k]);
        } else {
            assert(v[v.len() - 1] == v.filter(f)[i]);
        }
    }
}

/// A round in which a selected device is absent reports nothing for it and
/// drops its baseline, so its next sighting starts afresh.
pub proof fn lemma_absent_device_loses_baseline(
    prev: Seq<SampleView>,
    stats: Seq<DiskStatView>,
    subject: DiskstatsSubject,
    now: u128,
)
    requires
        current_of(stats, seq![subject], subject.name@) is None,
    ensures
        sample_round(prev, stats, seq![subject], now).1 == Seq::<(Seq<char>, IntervalCounters)>::empty(),
        no_sample_of(sample_round(prev, stats, seq![subject], now).0, subject.name@),
{
    let f = kept_in(stats, seq![subject]);
    let w = prev.filter(f);
    lemma_single_round(prev, stats, subject, now);
    lemma_filter_pred_all(prev, f);
    assert forall|k: int| 0 <= k < w.len() implies #[trigger] w[k].name != subject.name@ by {
        assert(f(w[k]));
    }
}

/// The baselines after a round in which a selected device was seen with
/// record `cur`: some samples of other devices, its new sample, and more.
proof fn lemma_seen_baseline(
    prev: Seq<SampleView>,
    stats: Seq<DiskStatView>,
    subject: DiskstatsSubject,
    now: u128,
    cur: DiskStatView,
)
    requires
        current_of(stats, seq![subject], subject.name@) == Some(cur),
        subject.dev_t matches Some(d) ==> d.0 == cur.major && d.1 == cur.minor,
    ensures
        exists|a: Seq<SampleView>, b: Seq<SampleView>|
            no_sample_of(a, subject.name@) && sample_round(prev, stats, seq![subject], now).0 == a + seq![
                SampleView {
                    name: subject.name@,
                    stat: cur,
                    observed_at_nanos: now,
                    diskseq: subject.diskseq,
                },
            ] + b,
{
    let f = kept_in(stats, seq![subject]);
    let w = prev.filter(f);
    let name = subject.name@;
    let x = SampleView { name, stat: cur, observed_at_nanos: now, diskseq: subject.diskseq };
    lemma_single_round(prev, stats, subject, now);
    let i = find_sample(w, name);
    lemma_find_from(w, name, 0);
    let r = sample_round(prev, stats, seq![subject], now).0;
    if i >= 0 {
        let a = w.take(i);
        let b = w.skip(i + 1);
        assert(r =~= a + seq![x] + b);
        assert(no_sample_of(a, name)) by {
            assert forall|k: int| 0 <= k < a.len() implies #[trigger] a[k].name != name by {
                assert(a[k] == w[k]);
            }
        }
    } else {
        let a = w;
        let b = Seq::<SampleView>::empty();
        assert(r =~= a + seq![x] + b);
        assert(no_sample_of(a, name)) by {
            assert forall|k: int| 0 <= k < a.len() implies #[trigger] a[k].name != name by {
                assert(a[k] == w[k]);
            }
        }
    }
}

/// After a round that saw a device with record `before`, the next round
/// that sees it again with record `after` and the same disk sequence number
/// and device number reports exactly one interval for it, measured from
/// `before`; none when a counter went back or no time passed.
pub proof fn lemma_steady_device_interval(
    prev: Seq<SampleView>,
    first_stats: Seq<DiskStatView>,
    next_stats: Seq<DiskStatView>,
    subject: DiskstatsSubject,
    t1: u128,
    t2: u128,
    before: DiskStatView,
    after: DiskStatView,
)
    requires
        current_of(first_stats, seq![subject], subject.name@) == Some(before),
        current_of(next_stats, seq![subject], subject.name@) == Some(after),
        subject.dev_t matches Some(d) ==> d.0 == before.major && d.1 == before.minor && d.0
            == after.major && d.1 == after.minor,
    ensures
        sample_round(sample_round(prev, first_stats, seq![subject], t1).0, next_stats, seq![subject], t2).1
            == match interval_of(before, after, elapsed_since(t2, t1)) {
            Some(c) => seq![(subject.name@, c)],
            None => Seq::<(Seq<char>, IntervalCounters)>::empty(),
        },
{
    let name = subject.name@;
    let x = SampleView { name, stat: before, observed_at_nanos: t1, diskseq: subject.diskseq };
    lemma_seen_baseline(prev, first_stats, subject, t1, before);
    let r1 = sample_round(prev, first_stats, seq![subject], t1).0;
    let (a, b) = choose|a: Seq<SampleView>, b: Seq<SampleView>|
        no_sample_of(a, name) && r1 == a + seq![x] + b;
    let f = kept_in(next_stats, seq![subject]);
    assert(seq![subject][0].name@ == name);
    assert(f(x));
    assert(seq![x].filter(f) =~= seq![x]) by {
        reveal(Seq::filter);
        assert(seq![x].drop_last() =~= Seq::<SampleView>::empty());
    }
    let w = r1.filter(f);
    Seq::filter_distributes_over_add(a + seq![x], b, f);
    Seq::filter_distributes_over_add(a, seq![x], f);
    assert(w == a.filter(f) + seq![x].filter(f) + b.filter(f));
    lemma_filter_no_sample(a, f, name);
    let af = a.filter(f);
    assert(w[af.len() as int] == x);
    assert forall|k: int| 0 <= k < af.len() implies #[trigger] w[k].name != name by {
        assert(w[k] == af[k]);
    }
    lemma_find_first(w, name, af.len() as int);
    lemma_single_round(r1, next_stats, subject, t2);
}

/// A round reports intervals only for selected devices: every name in its
/// result is the name of a subject.
pub proof fn lemma_round_reports_subjects_only(
    prev: Seq<SampleView>,
    stats: Seq<DiskStatView>,
    subjects: Seq<DiskstatsSubject>,
    now: u128,
)
    ensures
        forall|k: int|
            0 <= k < sample_round(prev, stats, subjects, now).1.len() ==> selected(
                subjects,
                #[trigger] sample_round(prev, stats, subjects, now).1[k].0,
            ),
{
    lemma_fold_subjects_only(
        (prev.filter(kept_in(stats, subjects)), seq![]),
        subjects,
        subjects.len() as int,
        stats,
        now,
    );
}

proof fn lemma_fold_subjects_only(
    start: (Seq<SampleView>, Seq<(Seq<char>, IntervalCounters)>),
    subjects: Seq<DiskstatsSubject>,
    j: int,
    stats: Seq<DiskStatView>,
    now: u128,
)
    requires
        start.1.len() == 0,
        j <= subjects.len(),
    ensures
        forall|k: int|
            0 <= k < sample_fold(start, subjects, j, stats, now).1.len() ==> selected(
                subjects,
                #[trigger] sample_fold(start, subjects, j, stats, now).1[k].0,
            ),
    decreases j,
{
    if j > 0 {
        lemma_fold_subjects_only(start, subjects, j - 1, stats, now);
        let before = sample_fold(start, subjects, j - 1, stats, now).1;
        let after = sample_fold(start, subjects, j, stats, now).1;
        assert(subjects[j - 1].name@ == subjects[j - 1].name@);
        assert forall|k: int| 0 <= k < after.len() implies selected(subjects, #[trigger] after[k].0) by {
            if k < before.len() {
                assert(after[k] == before[k]);
            } else {
                assert(after[k].0 == subjects[j - 1].name@);
            }
        }
    }
}

/// The number written in base counter `k` (0 to 10) of a line's fields:
/// the token after major, minor, name and `k` earlier counters.
pub open spec fn base_counter(fields: Seq<Seq<u8>>, k: int) -> u64 {
    field_value(fields[3 + k])
}

/// Every accepted line's counters are read by position, in the kernel's
/// order: reads completed, reads merged, sectors read, time reading, writes
/// completed, writes merged, sectors written, time writing, I/Os in
/// progress, time doing I/O, weighted time in queue. The device number is
/// the first two tokens.
pub proof fn lemma_counters_by_position(fields: Seq<Seq<u8>>)
    requires
        line_reason(fields) is None,
    ensures
        fields.len() >= 14,
        record_of(fields).major as int == field_value(fields[0]),
        record_of(fields).minor as int == field_value(fields[1]),
        record_of(fields).reads_completed == base_counter(fields, 0),
        record_of(fields).reads_merged == base_counter(fields, 1),
        record_of(fields).sectors_read == base_counter(fields, 2),
        record_of(fields).time_reading_ms == base_counter(fields, 3),
        record_of(fields).writes_completed == base_counter(fields, 4),
        record_of(fields).writes_merged == base_counter(fields, 5),
        record_of(fields).sectors_written == base_counter(fields, 6),
        record_of(fields).time_writing_ms == base_counter(fields, 7),
        record_of(fields).ios_in_progress == base_counter(fields, 8),
        record_of(fields).io_ticks_ms == base_counter(fields, 9),
        record_of(fields).weighted_time_in_queue_ms == base_counter(fields, 10),
{
    assert(field_ok(fields[0], u32::MAX as nat));
    assert(field_ok(fields[1], u32::MAX as nat));
    assert(field_value(fields[0]) <= u32::MAX);
    assert(field_value(fields[1]) <= u32::MAX);
}

/// Every record of an accepted snapshot holds the counters of its own line,
/// by position: sectors read is the third counter, sectors written the
/// seventh, and so on.
pub proof fn lemma_snapshot_counters_by_position(content: Seq<u8>, j: int)
    requires
        first_error_upto(snapshot_records(content), snapshot_records(content).len() as int) is None,
        0 <= j < snapshot_records(content).len(),
    ensures
        ({
            let fields = tokens(snapshot_records(content)[j].1);
            let stat = record_of(fields);
            &&& stat.reads_completed == base_counter(fields, 0)
            &&& stat.sectors_read == base_counter(fields, 2)
            &&& stat.time_reading_ms == base_counter(fields, 3)
            &&& stat.writes_completed == base_counter(fields, 4)
            &&& stat.sectors_written == base_counter(fields, 6)
            &&& stat.time_writing_ms == base_counter(fields, 7)
            &&& stat.io_ticks_ms == base_counter(fields, 9)
            &&& stat.weighted_time_in_queue_ms == base_counter(fields, 10)
        }),
{
    lemma_no_error_each(snapshot_records(content), snapshot_records(content).len() as int, j);
    lemma_counters_by_position(tokens(snapshot_records(content)[j].1));
}

proof fn lemma_no_error_each(rs: Seq<(int, Seq<u8>)>, k: int, j: int)
    requires
        first_error_upto(rs, k) is None,
        0 <= j < k,
    ensures
        line_reason(tokens(rs[j].1)) is None,
    decreases k,
{
    if j < k - 1 {
        lemma_no_error_each(rs, k - 1, j);
    }
}

} // verus!
