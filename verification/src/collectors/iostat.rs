//! `iostat -d` output: the per-device rows of its last report. Kept as the
//! reference the native throughput figures are compared against.
use vstd::prelude::*;

use crate::char_text::{char_lines, char_ranges, char_ranges_within, split_char_lines, split_words, words};
use crate::collectors::md_sysfs::{trim_all, trim_text};
use crate::text::{has_prefix, same_text, starts_with};

verus! {

/// One device row: its name and the read and write rates in kB/s, as the
/// text `iostat` printed.
#[derive(Debug, Clone, PartialEq, Eq)]
pub struct IostatRow {
    pub device: String,
    pub read_kb_per_sec: String,
    pub write_kb_per_sec: String,
}

pub open spec fn row_view(r: IostatRow) -> (Seq<char>, Seq<char>, Seq<char>) {
    (r.device@, r.read_kb_per_sec@, r.write_kb_per_sec@)
}

pub open spec fn is_blank_line(line: Seq<char>) -> bool {
    trim_all(line).len() == 0
}

pub open spec fn is_header(line: Seq<char>) -> bool {
    has_prefix(trim_all(line), "Device"@)
}

/// Reading the lines: the blocks finished so far and the block being read;
/// blank lines separate blocks.
pub open spec fn blocks_state(lines: Seq<Seq<char>>) -> (Seq<Seq<Seq<char>>>, Seq<Seq<char>>)
    decreases lines.len(),
{
    if lines.len() == 0 {
        (seq![], seq![])
    } else {
        let (done, current) = blocks_state(lines.drop_last());
        if is_blank_line(lines.last()) {
            if current.len() > 0 {
                (done.push(current), seq![])
            } else {
                (done, seq![])
            }
        } else {
            (done, current.push(lines.last()))
        }
    }
}

/// The blocks of non-blank lines.
pub open spec fn blocks(lines: Seq<Seq<char>>) -> Seq<Seq<Seq<char>>> {
    let (done, current) = blocks_state(lines);
    if current.len() > 0 {
        done.push(current)
    } else {
        done
    }
}

pub open spec fn has_header(block: Seq<Seq<char>>) -> bool {
    exists|i: int| 0 <= i < block.len() && is_header(#[trigger] block[i])
}

/// The last block that has a `Device` header line.
pub open spec fn last_report(bs: Seq<Seq<Seq<char>>>) -> Option<Seq<Seq<char>>>
    decreases bs.len(),
{
    if bs.len() == 0 {
        None
    } else if has_header(bs.last()) {
        Some(bs.last())
    } else {
        last_report(bs.drop_last())
    }
}

pub open spec fn names_contain(names: Seq<String>, k: Seq<char>) -> bool {
    exists|j: int| 0 <= j < names.len() && #[trigger] names[j]@ == k
}

/// The rows of a report: after a header line, each line of at least four
/// fields whose first names a monitored device.
pub open spec fn report_rows(block: Seq<Seq<char>>, devices: Seq<String>) -> (Seq<(Seq<char>, Seq<char>, Seq<char>)>, bool)
    decreases block.len(),
{
    if block.len() == 0 {
        (seq![], false)
    } else {
        let (rows, in_data) = report_rows(block.drop_last(), devices);
        let line = block.last();
        let fields = words(line);
        if is_header(line) {
            (rows, true)
        } else if in_data && fields.len() >= 4 && names_contain(devices, fields[0]) {
            (rows.push((fields[0], fields[2], fields[3])), in_data)
        } else {
            (rows, in_data)
        }
    }
}

/// The rows of the last report of an `iostat` output.
pub open spec fn iostat_rows(output: Seq<char>, devices: Seq<String>) -> Seq<(Seq<char>, Seq<char>, Seq<char>)> {
    match last_report(blocks(char_lines(output))) {
        Some(block) => report_rows(block, devices).0,
        None => seq![],
    }
}

fn contains_device(devices: &[String], name: &str) -> (r: bool)
    ensures
        r == names_contain(devices@, name@),
{
    let mut j: usize = 0;
    while j < devices.len()
        invariant
            j <= devices@.len(),
            forall|m: int| 0 <= m < j ==> devices@[m]@ != name@,
        decreases devices@.len() - j,
    {
        if same_text(devices[j].as_str(), name) {
            return true;
        }
        j = j + 1;
    }
    false
}

fn header_line(line: &str) -> (r: bool)
    ensures
        r == is_header(line@),
{
    let t = trim_text(line);
    starts_with(t.as_str(), "Device")
}

/// The rows of the block of lines `lo..hi` of `content`.
fn rows_of_block(
    content: &str,
    ranges: &Vec<(usize, usize)>,
    lo: usize,
    hi: usize,
    devices: &[String],
) -> (r: Vec<IostatRow>)
    requires
        lo <= hi <= ranges@.len(),
        char_ranges_within(content@, ranges@),
    ensures
        r@.map_values(|x: IostatRow| row_view(x)) == report_rows(
            char_ranges(content@, ranges@).subrange(lo as int, hi as int),
            devices@,
        ).0,
{
    let ghost lines = char_ranges(content@, ranges@);
    let mut rows: Vec<IostatRow> = Vec::new();
    let mut in_data = false;
    let mut k: usize = lo;
    assert(lines.subrange(lo as int, lo as int) =~= Seq::<Seq<char>>::empty());
    while k < hi
        invariant
            lo <= k <= hi <= ranges@.len(),
            lines == char_ranges(content@, ranges@),
            char_ranges_within(content@, ranges@),
            (rows@.map_values(|x: IostatRow| row_view(x)), in_data) == report_rows(
                lines.subrange(lo as int, k as int),
                devices@,
            ),
        decreases hi - k,
    {
        let (a, b) = ranges[k];
        let line = content.substring_char(a, b);
        assert(line@ == lines[k as int]);
        assert(lines.subrange(lo as int, k + 1).drop_last() =~= lines.subrange(lo as int, k as int));
        assert(lines.subrange(lo as int, k + 1).last() == lines[k as int]);
        let ghost before = rows@;
        if header_line(line) {
            in_data = true;
        } else if in_data {
            let fields = split_words(line);
            let ghost ws = words(line@);
            if fields.len() >= 4 {
                let (f0a, f0b) = fields[0];
                let (f2a, f2b) = fields[2];
                let (f3a, f3b) = fields[3];
                let name = line.substring_char(f0a, f0b);
                assert(name@ == ws[0]);
                if contains_device(devices, name) {
                    let read = line.substring_char(f2a, f2b);
                    let write = line.substring_char(f3a, f3b);
                    assert(read@ == ws[2] && write@ == ws[3]);
                    let row = IostatRow {
                        device: name.to_string(),
                        read_kb_per_sec: read.to_string(),
                        write_kb_per_sec: write.to_string(),
                    };
                    rows.push(row);
                    assert(rows@.map_values(|x: IostatRow| row_view(x)) =~= before.map_values(
                        |x: IostatRow| row_view(x),
                    ).push(row_view(row)));
                }
            }
        }
        k = k + 1;
    }
    rows
}

/// Reads the rows of the last report of an `iostat -d` output for the
/// monitored `devices`.
pub fn parse_iostat_output(output: &str, devices: &[String]) -> (r: Vec<IostatRow>)
    ensures
        r@.map_values(|x: IostatRow| row_view(x)) == iostat_rows(output@, devices@),
{
    let ranges = split_char_lines(output);
    let ghost lines = char_lines(output@);
    let mut chosen: Option<(usize, usize)> = None;
    let mut start: usize = 0;
    let mut header = false;
    let mut k: usize = 0;
    while k < ranges.len()
        invariant
            lines == char_lines(output@),
            char_ranges(output@, ranges@) == lines,
            char_ranges_within(output@, ranges@),
            start <= k <= ranges@.len(),
            blocks_state(lines.take(k as int)).1 == lines.subrange(start as int, k as int),
            header == has_header(lines.subrange(start as int, k as int)),
            last_report(blocks_state(lines.take(k as int)).0) == (match chosen {
                Some((a, b)) => Some(lines.subrange(a as int, b as int)),
                None => None::<Seq<Seq<char>>>,
            }),
            chosen matches Some((a, b)) ==> a <= b <= k,
        decreases ranges@.len() - k,
    {
        let (a, b) = ranges[k];
        let line = output.substring_char(a, b);
        assert(line@ == lines[k as int]);
        assert(lines.take(k + 1).drop_last() =~= lines.take(k as int));
        assert(lines.take(k + 1).last() == lines[k as int]);
        let ghost cur = lines.subrange(start as int, k as int);
        if trim_text(line).unicode_len() == 0 {
            if start < k && header {
                chosen = Some((start, k));
            }
            proof {
                let (done, current) = blocks_state(lines.take(k as int));
                if current.len() > 0 {
                    assert(done.push(current).drop_last() =~= done);
                }
            }
            start = k + 1;
            header = false;
            assert(lines.subrange(start as int, k + 1) =~= Seq::<Seq<char>>::empty());
        } else {
            let h = header_line(line);
            proof {
                let next = lines.subrange(start as int, k + 1);
                assert(next =~= cur.push(lines[k as int]));
                if h {
                    assert(next[next.len() - 1] == lines[k as int]);
                }
                if header {
                    let i = choose|i: int| 0 <= i < cur.len() && is_header(#[trigger] cur[i]);
                    assert(next[i] == cur[i]);
                }
                if has_header(next) {
                    let i = choose|i: int| 0 <= i < next.len() && is_header(#[trigger] next[i]);
                    if i < cur.len() {
                        assert(cur[i] == next[i]);
                    }
                }
            }
            header = header || h;
        }
        k = k + 1;
    }
    assert(lines.take(ranges@.len() as int) =~= lines);
    proof {
        let (done, current) = blocks_state(lines);
        if current.len() > 0 {
            assert(done.push(current).drop_last() =~= done);
        }
    }
    if start < ranges.len() && header {
        chosen = Some((start, ranges.len()));
    }
    match chosen {
        Some((a, b)) => rows_of_block(output, &ranges, a, b, devices),
        None => Vec::new(),
    }
}

} // verus!
