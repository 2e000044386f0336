//! `/proc/mdstat`: the arrays it lists, their state, and the progress of a
//! rebuild. Kept as the reference the sysfs reader is compared against.
use vstd::prelude::*;
use vstd::utf8::*;

use crate::char_text::{char_lines, char_ranges, char_ranges_within, split_char_lines};
use crate::collectors::md_sysfs::{trim_all, trim_text};
use crate::matching::{capture_group, regex_group};
use crate::monitor::RaidState;
use crate::text::{parse_unsigned, same_text, unsigned_value};

verus! {

pub const ARRAY_PATTERN: &'static str = r"^(\w+)\s*:\s*(active|inactive)\s+\w+";

pub const DISK_COUNT_PATTERN: &'static str = r"\[(\d+)/(\d+)\]";

pub const REBUILD_PATTERN: &'static str =
    r"\[[=>\.]+\]\s+(?:resync|recovery|check|repair)\s*=\s*([\d.]+)%";

pub const SPEED_PATTERN: &'static str = r"speed=(\d+)K/sec";

pub const FINISH_PATTERN: &'static str = r"finish=([\d.]+)min";

/// One array as `/proc/mdstat` shows it. The rebuild percentage is kept as
/// the decimal text the kernel printed.
#[derive(Debug, Clone, PartialEq, Eq)]
pub struct RaidStatus {
    pub name: String,
    pub state: RaidState,
    pub rebuild_pct: Option<String>,
    pub rebuild_speed_mb: Option<u64>,
    pub eta_minutes: Option<u64>,
    pub active_disks: u8,
    pub total_disks: u8,
}

pub struct RaidStatusView {
    pub name: Seq<char>,
    pub state: RaidState,
    pub rebuild_pct: Option<Seq<char>>,
    pub rebuild_speed_mb: Option<u64>,
    pub eta_minutes: Option<u64>,
    pub active_disks: u8,
    pub total_disks: u8,
}

impl View for RaidStatus {
    type V = RaidStatusView;

    open spec fn view(&self) -> RaidStatusView {
        RaidStatusView {
            name: self.name@,
            state: self.state,
            rebuild_pct: match self.rebuild_pct {
                Some(t) => Some(t@),
                None => None,
            },
            rebuild_speed_mb: self.rebuild_speed_mb,
            eta_minutes: self.eta_minutes,
            active_disks: self.active_disks,
            total_disks: self.total_disks,
        }
    }
}

/// What the lines of an array's block have said so far.
pub struct BlockFacts {
    pub active_disks: u8,
    pub total_disks: u8,
    pub pct: Option<Seq<char>>,
    pub speed: Option<u64>,
    pub eta: Option<u64>,
    pub rebuilding: bool,
}

pub open spec fn no_facts() -> BlockFacts {
    BlockFacts { active_disks: 0, total_disks: 0, pct: None, speed: None, eta: None, rebuilding: false }
}

pub open spec fn is_ascii_digit(c: char) -> bool {
    '0' <= c <= '9'
}

/// The number of `.` in `s`.
pub open spec fn dots(s: Seq<char>) -> nat
    decreases s.len(),
{
    if s.len() == 0 {
        0
    } else {
        dots(s.drop_last()) + if s.last() == '.' {
            1nat
        } else {
            0nat
        }
    }
}

/// A decimal that `f64` parsing accepts, among texts of digits and dots:
/// ASCII digits with at most one dot and at least one digit.
pub open spec fn decimal_ok(s: Seq<char>) -> bool {
    &&& forall|i: int| 0 <= i < s.len() ==> is_ascii_digit(#[trigger] s[i]) || s[i] == '.'
    &&& dots(s) <= 1
    &&& exists|i: int| 0 <= i < s.len() && is_ascii_digit(#[trigger] s[i])
}

/// The value of a text of ASCII digits.
pub open spec fn char_digits_value(s: Seq<char>) -> nat
    decreases s.len(),
{
    if s.len() == 0 {
        0
    } else {
        (char_digits_value(s.drop_last()) * 10 + (s.last() as int - 48)) as nat
    }
}

/// The index of the first `.` of `s`, or its length.
pub open spec fn dot_index(s: Seq<char>, i: int) -> int
    decreases s.len() - i,
{
    if i < 0 || i >= s.len() {
        s.len() as int
    } else if s[i] == '.' {
        i
    } else {
        dot_index(s, i + 1)
    }
}

/// A decimal rounded up to a whole number, at most `u64::MAX`; zero for a
/// text that is no decimal.
pub open spec fn ceil_minutes(s: Seq<char>) -> u64 {
    if !decimal_ok(s) {
        0
    } else {
        let d = dot_index(s, 0);
        let whole = char_digits_value(s.subrange(0, d));
        let up = exists|i: int| d < i < s.len() && #[trigger] s[i] != '0';
        let v = whole + if up {
            1nat
        } else {
            0nat
        };
        if v > u64::MAX {
            u64::MAX
        } else {
            v as u64
        }
    }
}

/// A captured unsigned number, or zero when it does not parse.
pub open spec fn number_or_zero(text: Option<Seq<char>>, max: nat) -> nat {
    match text {
        Some(t) => match unsigned_value(encode_utf8(t), max) {
            Some(v) => v,
            None => 0,
        },
        None => 0,
    }
}

/// The facts after one more line of an array's block: the member count,
/// the rebuild percentage, speed and time left, each as its last line says.
pub open spec fn facts_step(f: BlockFacts, line: Seq<char>) -> BlockFacts {
    let f1 = if regex_group(DISK_COUNT_PATTERN@, line, 1) is Some {
        BlockFacts {
            active_disks: number_or_zero(regex_group(DISK_COUNT_PATTERN@, line, 1), 255) as u8,
            total_disks: number_or_zero(regex_group(DISK_COUNT_PATTERN@, line, 2), 255) as u8,
            ..f
        }
    } else {
        f
    };
    let f2 = match regex_group(REBUILD_PATTERN@, line, 1) {
        Some(t) => BlockFacts {
            rebuilding: true,
            pct: if decimal_ok(t) {
                Some(t)
            } else {
                None
            },
            ..f1
        },
        None => f1,
    };
    let f3 = match regex_group(SPEED_PATTERN@, line, 1) {
        Some(t) => BlockFacts { speed: Some((number_or_zero(Some(t), u64::MAX as nat) / 1024) as u64), ..f2 },
        None => f2,
    };
    match regex_group(FINISH_PATTERN@, line, 1) {
        Some(t) => BlockFacts { eta: Some(ceil_minutes(t)), ..f3 },
        None => f3,
    }
}

/// The array a finished block describes: an inactive array's state is
/// unknown; a rebuild wins over missing members.
pub open spec fn closed_array(name: Seq<char>, active: bool, f: BlockFacts) -> RaidStatusView {
    RaidStatusView {
        name,
        state: if !active {
            RaidState::Unknown
        } else if f.rebuilding {
            RaidState::Rebuilding
        } else if f.active_disks < f.total_disks {
            RaidState::Degraded
        } else {
            RaidState::Active
        },
        rebuild_pct: f.pct,
        rebuild_speed_mb: f.speed,
        eta_minutes: f.eta,
        active_disks: f.active_disks,
        total_disks: f.total_disks,
    }
}

/// Reading `/proc/mdstat` line by line: the arrays finished so far and the
/// one whose block is being read. A header line opens a block; a blank line
/// closes it.
pub struct MdstatScan {
    pub arrays: Seq<RaidStatusView>,
    pub open: Option<(Seq<char>, bool, BlockFacts)>,
}

pub open spec fn mdstat_step(s: MdstatScan, line: Seq<char>) -> MdstatScan {
    match s.open {
        Some((name, active, facts)) => if trim_all(line).len() == 0 {
            MdstatScan { arrays: s.arrays.push(closed_array(name, active, facts)), open: None }
        } else {
            MdstatScan { arrays: s.arrays, open: Some((name, active, facts_step(facts, line))) }
        },
        None => match regex_group(ARRAY_PATTERN@, line, 1) {
            Some(name) => MdstatScan {
                arrays: s.arrays,
                open: Some((name, regex_group(ARRAY_PATTERN@, line, 2) == Some("active"@), no_facts())),
            },
            None => s,
        },
    }
}

pub open spec fn mdstat_scan(lines: Seq<Seq<char>>) -> MdstatScan
    decreases lines.len(),
{
    if lines.len() == 0 {
        MdstatScan { arrays: seq![], open: None }
    } else {
        mdstat_step(mdstat_scan(lines.drop_last()), lines.last())
    }
}

/// The arrays `/proc/mdstat` lists, in order.
pub open spec fn mdstat_arrays(content: Seq<char>) -> Seq<RaidStatusView> {
    let s = mdstat_scan(char_lines(content));
    match s.open {
        Some((name, active, facts)) => s.arrays.push(closed_array(name, active, facts)),
        None => s.arrays,
    }
}

fn dot_count_ok(t: &str) -> (r: bool)
    ensures
        r == decimal_ok(t@),
{
    let n = t.unicode_len();
    let mut dots_seen: usize = 0;
    let mut digit = false;
    let mut i: usize = 0;
    while i < n
        invariant
            n == t@.len(),
            i <= n,
            dots_seen == dots(t@.subrange(0, i as int)),
            dots_seen <= 1,
            forall|k: int| 0 <= k < i ==> is_ascii_digit(#[trigger] t@[k]) || t@[k] == '.',
            digit == exists|k: int| 0 <= k < i && is_ascii_digit(#[trigger] t@[k]),
        decreases n - i,
    {
        let c = t.get_char(i);
        assert(t@.subrange(0, i + 1).drop_last() =~= t@.subrange(0, i as int));
        if c == '.' {
            if dots_seen == 1 {
                proof {
                    lemma_dots_prefix(t@, i + 1);
                }
                return false;
            }
            dots_seen = dots_seen + 1;
        } else if '0' <= c && c <= '9' {
            digit = true;
        } else {
            return false;
        }
        i = i + 1;
    }
    assert(t@.subrange(0, n as int) =~= t@);
    digit
}

proof fn lemma_dots_prefix(s: Seq<char>, i: int)
    requires
        0 <= i <= s.len(),
    ensures
        dots(s.subrange(0, i)) <= dots(s),
    decreases s.len() - i,
{
    if i < s.len() {
        lemma_dots_prefix(s, i + 1);
        assert(s.subrange(0, i + 1).drop_last() =~= s.subrange(0, i));
    } else {
        assert(s.subrange(0, i) =~= s);
    }
}

proof fn lemma_digits_grow(s: Seq<char>, i: int)
    requires
        0 <= i <= s.len(),
        forall|k: int| 0 <= k < s.len() ==> is_ascii_digit(#[trigger] s[k]),
    ensures
        char_digits_value(s.subrange(0, i)) <= char_digits_value(s),
    decreases s.len() - i,
{
    if i < s.len() {
        lemma_digits_grow(s, i + 1);
        assert(s.subrange(0, i + 1).drop_last() =~= s.subrange(0, i));
    } else {
        assert(s.subrange(0, i) =~= s);
    }
}

/// Rounds a captured decimal up to whole minutes.
fn ceil_text(t: &str) -> (r: u64)
    ensures
        r == ceil_minutes(t@),
{
    if !dot_count_ok(t) {
        return 0;
    }
    let n = t.unicode_len();
    let mut value: u64 = 0;
    let mut over = false;
    let mut i: usize = 0;
    while i < n && t.get_char(i) != '.'
        invariant
            n == t@.len(),
            decimal_ok(t@),
            i <= n,
            forall|k: int| 0 <= k < i ==> t@[k] != '.',
            dot_index(t@, 0) == dot_index(t@, i as int),
            over ==> char_digits_value(t@.subrange(0, i as int)) > u64::MAX,
            !over ==> value == char_digits_value(t@.subrange(0, i as int)),
        decreases n - i,
    {
        let c = t.get_char(i);
        let d: u64 = (c as u32 - 48) as u64;
        assert(t@.subrange(0, i + 1).drop_last() =~= t@.subrange(0, i as int));
        assert(t@.subrange(0, i + 1).last() == c);
        if !over {
            if value > (u64::MAX - d) / 10 {
                over = true;
                assert(value * 10 + d > u64::MAX) by (nonlinear_arith)
                    requires
                        value > (u64::MAX - d) / 10,
                        d <= 9,
                ;
            } else {
                assert(value * 10 + d <= u64::MAX) by (nonlinear_arith)
                    requires
                        value <= (u64::MAX - d) / 10,
                        d <= 9,
                ;
                value = value * 10 + d;
            }
        } else {
            assert(char_digits_value(t@.subrange(0, i + 1)) >= char_digits_value(t@.subrange(0, i as int)))
                by (nonlinear_arith)
                requires
                    char_digits_value(t@.subrange(0, i + 1)) == char_digits_value(t@.subrange(0, i as int)) * 10
                        + (c as int - 48),
                    48 <= c as int,
            ;
        }
        i = i + 1;
    }
    let d = i;
    assert(dot_index(t@, 0) == d) by {
        if d < n {
            assert(t@[d as int] == '.');
        }
    }
    let mut up = false;
    if d < n {
        let mut j: usize = d + 1;
        while j < n
            invariant
                n == t@.len(),
                d < n,
                d + 1 <= j <= n,
                up == exists|k: int| d < k < j && #[trigger] t@[k] != '0',
            decreases n - j,
        {
            if t.get_char(j) != '0' {
                up = true;
            }
            j = j + 1;
        }
    }
    let ghost whole = char_digits_value(t@.subrange(0, d as int));
    if over {
        return u64::MAX;
    }
    if up {
        if value == u64::MAX {
            u64::MAX
        } else {
            value + 1
        }
    } else {
        value
    }
}

fn number_text_or_zero(text: Option<String>, max: u64) -> (r: u64)
    ensures
        r == number_or_zero(
            match text {
                Some(t) => Some(t@),
                None => None,
            },
            max as nat,
        ),
{
    match text {
        Some(t) => match parse_unsigned(t.as_str().as_bytes(), max) {
            Some(v) => v,
            None => 0,
        },
        None => 0,
    }
}

/// Reads the arrays of a `/proc/mdstat` text.
pub fn parse_mdstat(content: &str) -> (r: Vec<RaidStatus>)
    ensures
        r@.map_values(|s: RaidStatus| s@) == mdstat_arrays(content@),
{
    let ranges = split_char_lines(content);
    let ghost lines = char_lines(content@);
    let mut arrays: Vec<RaidStatus> = Vec::new();
    let mut open: Option<(String, bool)> = None;
    let mut active_disks: u8 = 0;
    let mut total_disks: u8 = 0;
    let mut pct: Option<String> = None;
    let mut speed: Option<u64> = None;
    let mut eta: Option<u64> = None;
    let mut rebuilding = false;
    let mut k: usize = 0;
    while k < ranges.len()
        invariant
            lines == char_lines(content@),
            char_ranges(content@, ranges@) == lines,
            char_ranges_within(content@, ranges@),
            k <= ranges@.len(),
            ({
                let s = mdstat_scan(lines.take(k as int));
                &&& arrays@.map_values(|a: RaidStatus| a@) == s.arrays
                &&& match open {
                    Some((name, active)) => s.open matches Some((n, a, f)) && n == name@ && a == active
                        && f == (BlockFacts {
                        active_disks,
                        total_disks,
                        pct: match pct {
                            Some(t) => Some(t@),
                            None => None,
                        },
                        speed,
                        eta,
                        rebuilding,
                    }),
                    None => s.open is None,
                }
            }),
        decreases ranges@.len() - k,
    {
        let (a, b) = ranges[k];
        let line = content.substring_char(a, b);
        assert(line@ == lines[k as int]);
        assert(lines.take(k + 1).drop_last() =~= lines.take(k as int));
        assert(lines.take(k + 1).last() == lines[k as int]);
        let ghost before_arrays = arrays@;
        match open {
            Some((name, active)) => {
                if trim_text(line).unicode_len() == 0 {
                    let state = if !active {
                        RaidState::Unknown
                    } else if rebuilding {
                        RaidState::Rebuilding
                    } else if active_disks < total_disks {
                        RaidState::Degraded
                    } else {
                        RaidState::Active
                    };
                    let status = RaidStatus {
                        name,
                        state,
                        rebuild_pct: pct,
                        rebuild_speed_mb: speed,
                        eta_minutes: eta,
                        active_disks,
                        total_disks,
                    };
                    arrays.push(status);
                    assert(arrays@.map_values(|a: RaidStatus| a@) =~= before_arrays.map_values(
                        |a: RaidStatus| a@,
                    ).push(status@));
                    open = None;
                    active_disks = 0;
                    total_disks = 0;
                    pct = None;
                    speed = None;
                    eta = None;
                    rebuilding = false;
                } else {
                    if capture_group(DISK_COUNT_PATTERN, line, 1).is_some() {
                        active_disks = number_text_or_zero(capture_group(DISK_COUNT_PATTERN, line, 1), 255) as u8;
                        total_disks = number_text_or_zero(capture_group(DISK_COUNT_PATTERN, line, 2), 255) as u8;
                    }
                    if let Some(t) = capture_group(REBUILD_PATTERN, line, 1) {
                        rebuilding = true;
                        pct = if dot_count_ok(t.as_str()) {
                            Some(t)
                        } else {
                            None
                        };
                    }
                    if let Some(t) = capture_group(SPEED_PATTERN, line, 1) {
                        speed = Some(number_text_or_zero(Some(t), u64::MAX) / 1024);
                    }
                    if let Some(t) = capture_group(FINISH_PATTERN, line, 1) {
                        eta = Some(ceil_text(t.as_str()));
                    }
                    open = Some((name, active));
                }
            },
            None => {
                if let Some(name) = capture_group(ARRAY_PATTERN, line, 1) {
                    let active = match capture_group(ARRAY_PATTERN, line, 2) {
                        Some(status) => same_text(status.as_str(), "active"),
                        None => false,
                    };
                    open = Some((name, active));
                    active_disks = 0;
                    total_disks = 0;
                    pct = None;
                    speed = None;
                    eta = None;
                    rebuilding = false;
                }
            },
        }
        k = k + 1;
    }
    assert(lines.take(ranges@.len() as int) =~= lines);
    if let Some((name, active)) = open {
        let state = if !active {
            RaidState::Unknown
        } else if rebuilding {
            RaidState::Rebuilding
        } else if active_disks < total_disks {
            RaidState::Degraded
        } else {
            RaidState::Active
        };
        let status = RaidStatus {
            name,
            state,
            rebuild_pct: pct,
            rebuild_speed_mb: speed,
            eta_minutes: eta,
            active_disks,
            total_disks,
        };
        let ghost before_arrays = arrays@;
        arrays.push(status);
        assert(arrays@.map_values(|a: RaidStatus| a@) =~= before_arrays.map_values(|a: RaidStatus| a@).push(
            status@,
        ));
    }
    arrays
}

} // verus!
