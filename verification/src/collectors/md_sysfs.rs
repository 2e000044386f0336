//! MD RAID state from sysfs: the attribute parsers, the array summary the
//! monitor shows, and the rebuild-speed sampler.
use vstd::prelude::*;
use vstd::string::*;

use crate::monitor::{RaidState, RaidSummary};
use crate::scsi::mapping::{insert_sorted, strictly_sorted};
use crate::storage::string_views;
use crate::text::{parse_unsigned, same_text, unsigned_value};

verus! {

/// `std::path::PathBuf`, carried through unchanged.
#[verifier::external_type_specification]
#[verifier::external_body]
pub struct ExPathBuf(std::path::PathBuf);

pub const SNAPSHOT_ATTEMPTS: usize = 2;

/// A delta speed is only measured over at least this many nanoseconds.
pub const MIN_DELTA_SAMPLE_NANOS: u128 = 2_000_000_000;

#[derive(Debug, Clone, PartialEq, Eq)]
pub enum MdArrayState {
    Clear,
    Inactive,
    Readonly,
    ReadAuto,
    Clean,
    Active,
    WritePending,
    ActiveIdle,
    Unknown(String),
}

/// The state named by an `array_state` value; any other value is kept as
/// unknown.
pub open spec fn array_state_of(value: Seq<char>, s: MdArrayState) -> bool {
    if value == "clear"@ {
        s is Clear
    } else if value == "inactive"@ {
        s is Inactive
    } else if value == "readonly"@ {
        s is Readonly
    } else if value == "read-auto"@ {
        s is ReadAuto
    } else if value == "clean"@ {
        s is Clean
    } else if value == "active"@ {
        s is Active
    } else if value == "write-pending"@ {
        s is WritePending
    } else if value == "active-idle"@ {
        s is ActiveIdle
    } else {
        s matches MdArrayState::Unknown(t) && t@ == value
    }
}

impl MdArrayState {
    pub fn parse(value: &str) -> (s: MdArrayState)
        ensures
            array_state_of(value@, s),
    {
        if same_text(value, "clear") {
            MdArrayState::Clear
        } else if same_text(value, "inactive") {
            MdArrayState::Inactive
        } else if same_text(value, "readonly") {
            MdArrayState::Readonly
        } else if same_text(value, "read-auto") {
            MdArrayState::ReadAuto
        } else if same_text(value, "clean") {
            MdArrayState::Clean
        } else if same_text(value, "active") {
            MdArrayState::Active
        } else if same_text(value, "write-pending") {
            MdArrayState::WritePending
        } else if same_text(value, "active-idle") {
            MdArrayState::ActiveIdle
        } else {
            MdArrayState::Unknown(String::from_str(value))
        }
    }
}

#[derive(Debug, Clone, PartialEq, Eq)]
pub enum MdSyncAction {
    Idle,
    Resync,
    Recover,
    Check,
    Repair,
    Reshape,
    Unknown(String),
}

/// A sync action with an unknown name taken as text.
pub enum MdSyncActionView {
    Idle,
    Resync,
    Recover,
    Check,
    Repair,
    Reshape,
    Unknown(Seq<char>),
}

impl View for MdSyncAction {
    type V = MdSyncActionView;

    open spec fn view(&self) -> MdSyncActionView {
        match self {
            MdSyncAction::Idle => MdSyncActionView::Idle,
            MdSyncAction::Resync => MdSyncActionView::Resync,
            MdSyncAction::Recover => MdSyncActionView::Recover,
            MdSyncAction::Check => MdSyncActionView::Check,
            MdSyncAction::Repair => MdSyncActionView::Repair,
            MdSyncAction::Reshape => MdSyncActionView::Reshape,
            MdSyncAction::Unknown(t) => MdSyncActionView::Unknown(t@),
        }
    }
}

/// The action named by a `sync_action` value; any other value is kept as
/// unknown.
pub open spec fn sync_action_of(value: Seq<char>) -> MdSyncActionView {
    if value == "idle"@ {
        MdSyncActionView::Idle
    } else if value == "resync"@ {
        MdSyncActionView::Resync
    } else if value == "recover"@ {
        MdSyncActionView::Recover
    } else if value == "check"@ {
        MdSyncActionView::Check
    } else if value == "repair"@ {
        MdSyncActionView::Repair
    } else if value == "reshape"@ {
        MdSyncActionView::Reshape
    } else {
        MdSyncActionView::Unknown(value)
    }
}

/// Resync, recovery, check, repair and reshape are operations in progress.
pub open spec fn action_active(a: MdSyncActionView) -> bool {
    a is Resync || a is Recover || a is Check || a is Repair || a is Reshape
}

impl MdSyncAction {
    pub fn parse(value: &str) -> (a: MdSyncAction)
        ensures
            a@ == sync_action_of(value@),
    {
        if same_text(value, "idle") {
            MdSyncAction::Idle
        } else if same_text(value, "resync") {
            MdSyncAction::Resync
        } else if same_text(value, "recover") {
            MdSyncAction::Recover
        } else if same_text(value, "check") {
            MdSyncAction::Check
        } else if same_text(value, "repair") {
            MdSyncAction::Repair
        } else if same_text(value, "reshape") {
            MdSyncAction::Reshape
        } else {
            MdSyncAction::Unknown(String::from_str(value))
        }
    }

    pub fn is_active(&self) -> (r: bool)
        ensures
            r == action_active(self@),
    {
        match self {
            MdSyncAction::Resync | MdSyncAction::Recover | MdSyncAction::Check
            | MdSyncAction::Repair | MdSyncAction::Reshape => true,
            _ => false,
        }
    }

    /// Whether two actions are the same.
    pub fn same_as(&self, other: &MdSyncAction) -> (r: bool)
        ensures
            r == (self@ == other@),
    {
        match (self, other) {
            (MdSyncAction::Idle, MdSyncAction::Idle) => true,
            (MdSyncAction::Resync, MdSyncAction::Resync) => true,
            (MdSyncAction::Recover, MdSyncAction::Recover) => true,
            (MdSyncAction::Check, MdSyncAction::Check) => true,
            (MdSyncAction::Repair, MdSyncAction::Repair) => true,
            (MdSyncAction::Reshape, MdSyncAction::Reshape) => true,
            (MdSyncAction::Unknown(a), MdSyncAction::Unknown(b)) => *a == *b,
            _ => false,
        }
    }

    /// A copy of the action.
    pub fn duplicate(&self) -> (r: MdSyncAction)
        ensures
            r@ == self@,
    {
        match self {
            MdSyncAction::Idle => MdSyncAction::Idle,
            MdSyncAction::Resync => MdSyncAction::Resync,
            MdSyncAction::Recover => MdSyncAction::Recover,
            MdSyncAction::Check => MdSyncAction::Check,
            MdSyncAction::Repair => MdSyncAction::Repair,
            MdSyncAction::Reshape => MdSyncAction::Reshape,
            MdSyncAction::Unknown(t) => MdSyncAction::Unknown(t.clone()),
        }
    }
}

/// Unicode white space, as `char::is_whitespace` sees it.
pub open spec fn is_white(c: char) -> bool {
    ('\u{9}' <= c <= '\u{d}') || c == ' ' || c == '\u{85}' || c == '\u{a0}' || c == '\u{1680}'
        || ('\u{2000}' <= c <= '\u{200a}') || c == '\u{2028}' || c == '\u{2029}' || c == '\u{202f}'
        || c == '\u{205f}' || c == '\u{3000}'
}

pub(crate) fn white(c: char) -> (r: bool)
    ensures
        r == is_white(c),
{
    ('\u{9}' <= c && c <= '\u{d}') || c == ' ' || c == '\u{85}' || c == '\u{a0}' || c == '\u{1680}'
        || ('\u{2000}' <= c && c <= '\u{200a}') || c == '\u{2028}' || c == '\u{2029}' || c
        == '\u{202f}' || c == '\u{205f}' || c == '\u{3000}'
}

/// The first index from `lo` that is not white space, up to `hi`.
pub open spec fn trim_lo(s: Seq<char>, lo: int, hi: int) -> int
    decreases hi - lo,
{
    if lo < hi && is_white(s[lo]) {
        trim_lo(s, lo + 1, hi)
    } else {
        lo
    }
}

/// One past the last index before `hi` that is not white space, down to
/// `lo`.
pub open spec fn trim_hi(s: Seq<char>, lo: int, hi: int) -> int
    decreases hi - lo,
{
    if lo < hi && is_white(s[hi - 1]) {
        trim_hi(s, lo, hi - 1)
    } else {
        hi
    }
}

/// `s` without white space at either end, as `str::trim` gives it.
pub open spec fn trim_all(s: Seq<char>) -> Seq<char> {
    s.subrange(trim_lo(s, 0, s.len() as int), trim_hi(s, trim_lo(s, 0, s.len() as int), s.len() as int))
}

/// Removes white space from both ends of `t`.
pub fn trim_text(t: &str) -> (r: String)
    ensures
        r@ == trim_all(t@),
{
    let n = t.unicode_len();
    let mut a: usize = 0;
    while a < n && white(t.get_char(a))
        invariant
            n == t@.len(),
            a <= n,
            trim_lo(t@, 0, n as int) == trim_lo(t@, a as int, n as int),
        decreases n - a,
    {
        a = a + 1;
    }
    let mut b = n;
    while b > a && white(t.get_char(b - 1))
        invariant
            n == t@.len(),
            a <= b <= n,
            a == trim_lo(t@, 0, n as int),
            trim_hi(t@, a as int, n as int) == trim_hi(t@, a as int, b as int),
        decreases b - a,
    {
        b = b - 1;
    }
    String::from_str(t.substring_char(a, b))
}

/// Reading `s` char by char: the comma-separated items completed so far
/// and the item being read.
pub open spec fn items_state(s: Seq<char>) -> (Seq<Seq<char>>, Seq<char>)
    decreases s.len(),
{
    if s.len() == 0 {
        (seq![], seq![])
    } else {
        let (done, current) = items_state(s.drop_last());
        if s.last() == ',' {
            (done.push(current), seq![])
        } else {
            (done, current.push(s.last()))
        }
    }
}

/// The comma-separated items of `s`, as `split(',')` yields them.
pub open spec fn comma_items(s: Seq<char>) -> Seq<Seq<char>> {
    items_state(s).0.push(items_state(s).1)
}

/// Whether `flag` is one of the items of `items`, trimmed and not empty.
pub open spec fn flag_among(items: Seq<Seq<char>>, flag: Seq<char>) -> bool {
    flag.len() > 0 && exists|j: int| 0 <= j < items.len() && #[trigger] trim_all(items[j]) == flag
}

#[derive(Debug, Clone, PartialEq, Eq)]
pub struct MdMemberState {
    pub flags: Vec<String>,
}

impl MdMemberState {
    /// The flags of a member `state` value: comma-separated, trimmed, empty
    /// ones dropped, sorted by bytes and without duplicates.
    pub fn parse(value: &str) -> (m: MdMemberState)
        ensures
            strictly_sorted(m.flags@),
            forall|f: Seq<char>|
                string_views(m.flags@).contains(f) <==> flag_among(comma_items(value@), f),
    {
        let n = value.unicode_len();
        let mut flags: Vec<String> = Vec::new();
        let mut start: usize = 0;
        let mut i: usize = 0;
        while i < n
            invariant
                n == value@.len(),
                start <= i <= n,
                items_state(value@.take(i as int)).1 == value@.subrange(start as int, i as int),
                strictly_sorted(flags@),
                forall|f: Seq<char>|
                    string_views(flags@).contains(f) <==> flag_among(
                        items_state(value@.take(i as int)).0,
                        f,
                    ),
            decreases n - i,
        {
            assert(value@.take(i + 1).drop_last() =~= value@.take(i as int));
            assert(value@.take(i + 1).last() == value@[i as int]);
            let c = value.get_char(i);
            if c == ',' {
                let ghost done = items_state(value@.take(i as int)).0;
                let ghost item = value@.subrange(start as int, i as int);
                let flag = trim_text(value.substring_char(start, i));
                if flag.unicode_len() > 0 {
                    insert_sorted(&mut flags, &flag);
                }
                proof {
                    assert forall|f: Seq<char>|
                        string_views(flags@).contains(f) <==> flag_among(done.push(item), f) by {
                        if flag_among(done.push(item), f) {
                            let j = choose|j: int|
                                0 <= j < done.push(item).len() && #[trigger] trim_all(
                                    done.push(item)[j],
                                ) == f;
                            if j < done.len() {
                                assert(trim_all(done[j]) == f);
                            }
                        }
                        if flag_among(done, f) {
                            let j = choose|j: int| 0 <= j < done.len() && #[trigger] trim_all(done[j]) == f;
                            assert(trim_all(done.push(item)[j]) == f);
                        }
                        if f == trim_all(item) && f.len() > 0 {
                            assert(trim_all(done.push(item)[done.len() as int]) == f);
                        }
                    }
                }
                start = i + 1;
                assert(value@.subrange(start as int, i + 1) =~= Seq::<char>::empty());
            } else {
                assert(value@.subrange(start as int, i + 1) =~= value@.subrange(start as int, i as int).push(c));
            }
            i = i + 1;
        }
        assert(value@.take(n as int) =~= value@);
        let ghost done = items_state(value@).0;
        let ghost item = value@.subrange(start as int, n as int);
        let flag = trim_text(value.substring_char(start, n));
        if flag.unicode_len() > 0 {
            insert_sorted(&mut flags, &flag);
        }
        proof {
            assert forall|f: Seq<char>|
                string_views(flags@).contains(f) <==> flag_among(done.push(item), f) by {
                if flag_among(done.push(item), f) {
                    let j = choose|j: int|
                        0 <= j < done.push(item).len() && #[trigger] trim_all(done.push(item)[j]) == f;
                    if j < done.len() {
                        assert(trim_all(done[j]) == f);
                    }
                }
                if flag_among(done, f) {
                    let j = choose|j: int| 0 <= j < done.len() && #[trigger] trim_all(done[j]) == f;
                    assert(trim_all(done.push(item)[j]) == f);
                }
                if f == trim_all(item) && f.len() > 0 {
                    assert(trim_all(done.push(item)[done.len() as int]) == f);
                }
            }
        }
        MdMemberState { flags }
    }

    pub fn contains(&self, flag: &str) -> (r: bool)
        ensures
            r == string_views(self.flags@).contains(flag@),
    {
        let mut i: usize = 0;
        while i < self.flags.len()
            invariant
                i <= self.flags@.len(),
                forall|k: int| 0 <= k < i ==> self.flags@[k]@ != flag@,
            decreases self.flags@.len() - i,
        {
            if same_text(self.flags[i].as_str(), flag) {
                assert(string_views(self.flags@)[i as int] == flag@);
                return true;
            }
            i = i + 1;
        }
        proof {
            if string_views(self.flags@).contains(flag@) {
                let k = choose|k: int| 0 <= k < string_views(self.flags@).len() && string_views(self.flags@)[k] == flag@;
                assert(self.flags@[k]@ == flag@);
            }
        }
        false
    }
}


#[derive(Debug, Clone, Copy, PartialEq, Eq, Structural)]
pub struct MdProgress {
    pub completed_sectors: u64,
    pub total_sectors: u64,
}

/// Seconds left at `speed` KiB/s, rounded up; none at zero speed, with
/// progress past the total, or beyond `u64`.
pub open spec fn eta_of(p: MdProgress, speed_kib_per_sec: u64) -> Option<u64> {
    if speed_kib_per_sec == 0 || p.total_sectors < p.completed_sectors {
        None
    } else {
        let bytes = (p.total_sectors - p.completed_sectors) * 512;
        let per_second = speed_kib_per_sec * 1024;
        let seconds = (bytes + per_second - 1) / per_second;
        if seconds > u64::MAX {
            None
        } else {
            Some(seconds as u64)
        }
    }
}

impl MdProgress {
    pub fn eta_seconds(&self, speed_kib_per_sec: u64) -> (r: Option<u64>)
        ensures
            r == eta_of(*self, speed_kib_per_sec),
    {
        if speed_kib_per_sec == 0 {
            return None;
        }
        let remaining = self.total_sectors.checked_sub(self.completed_sectors)? as u128;
        let bytes: u128 = remaining * 512;
        let per_second: u128 = speed_kib_per_sec as u128 * 1024;
        let seconds: u128 = (bytes + per_second - 1) / per_second;
        if seconds > 0xffff_ffff_ffff_ffff {
            None
        } else {
            Some(seconds as u64)
        }
    }
}

/// The index of the first `/` of `s`, if any.
pub open spec fn first_slash(s: Seq<char>, i: int) -> int
    decreases s.len() - i,
{
    if i < 0 || i >= s.len() {
        -1
    } else if s[i] == '/' {
        i
    } else {
        first_slash(s, i + 1)
    }
}

/// A `sync_completed` value: `none` or empty for no operation, else
/// `completed / total` with 0 < total and completed <= total. `Err` marks
/// a malformed value.
pub open spec fn progress_of(value: Seq<char>) -> Result<Option<MdProgress>, ()> {
    if value == "none"@ || value.len() == 0 {
        Ok(None)
    } else if first_slash(value, 0) < 0 {
        Err(())
    } else {
        let slash = first_slash(value, 0);
        let completed = unsigned_value(
            vstd::utf8::encode_utf8(trim_all(value.subrange(0, slash))),
            u64::MAX as nat,
        );
        let total = unsigned_value(
            vstd::utf8::encode_utf8(trim_all(value.subrange(slash + 1, value.len() as int))),
            u64::MAX as nat,
        );
        match (completed, total) {
            (Some(c), Some(t)) => if t == 0 || c > t {
                Err(())
            } else {
                Ok(Some(MdProgress { completed_sectors: c as u64, total_sectors: t as u64 }))
            },
            _ => Err(()),
        }
    }
}

pub fn parse_progress(value: &str) -> (r: Result<Option<MdProgress>, ()>)
    ensures
        r == progress_of(value@),
{
    if same_text(value, "none") || value.unicode_len() == 0 {
        return Ok(None);
    }
    let n = value.unicode_len();
    let mut slash: usize = 0;
    while slash < n && value.get_char(slash) != '/'
        invariant
            n == value@.len(),
            slash <= n,
            first_slash(value@, 0) == first_slash(value@, slash as int),
        decreases n - slash,
    {
        slash = slash + 1;
    }
    if slash == n {
        return Err(());
    }
    let left = trim_text(value.substring_char(0, slash));
    let right = trim_text(value.substring_char(slash + 1, n));
    let completed = match parse_unsigned(left.as_str().as_bytes(), 0xffff_ffff_ffff_ffff) {
        Some(v) => v,
        None => {
            return Err(());
        },
    };
    let total = match parse_unsigned(right.as_str().as_bytes(), 0xffff_ffff_ffff_ffff) {
        Some(v) => v,
        None => {
            return Err(());
        },
    };
    if total == 0 || completed > total {
        return Err(());
    }
    Ok(Some(MdProgress { completed_sectors: completed, total_sectors: total }))
}

#[derive(Debug, Clone, PartialEq, Eq)]
pub struct MdMemberSnapshot {
    pub kernel_entry: String,
    pub block_device: Option<String>,
    pub state: MdMemberState,
    pub slot: Option<u32>,
    pub errors: Option<u64>,
    pub recovery_start: Option<u64>,
}

#[derive(Debug, Clone, PartialEq, Eq)]
pub struct MdArraySnapshot {
    pub name: String,
    pub level: String,
    pub state: MdArrayState,
    pub raid_disks: u32,
    pub degraded: u32,
    pub action: MdSyncAction,
    pub progress: Option<MdProgress>,
    pub sync_speed_kib_per_sec: Option<u64>,
    pub metadata_version: String,
    pub external_metadata: bool,
    pub members: Vec<MdMemberSnapshot>,
    pub consistent: bool,
}

#[derive(Debug, Clone)]
pub struct MdInventory {
    pub arrays: Vec<MdArraySnapshot>,
    pub partial: bool,
}

impl Default for MdInventory {
    fn default() -> (r: MdInventory)
        ensures
            r.arrays@.len() == 0,
            !r.partial,
    {
        MdInventory { arrays: Vec::new(), partial: false }
    }
}

#[derive(Debug)]
pub enum MdError {
    Io(std::io::Error),
    Malformed { path: std::path::PathBuf, value: String },
}

/// A member reports a failure: faulty, blocked or write errors.
pub open spec fn member_problem(m: MdMemberSnapshot) -> bool {
    string_views(m.state.flags@).contains("faulty"@) || string_views(m.state.flags@).contains(
        "blocked"@,
    ) || string_views(m.state.flags@).contains("write_error"@)
}

pub open spec fn any_member_problem(members: Seq<MdMemberSnapshot>) -> bool {
    exists|i: int| 0 <= i < members.len() && member_problem(#[trigger] members[i])
}

/// What the monitor shows of an array: an inconsistent snapshot is unknown,
/// a running operation is a rebuild, missing disks or member failures are
/// degraded, an active or clean array is active.
pub open spec fn array_raid_state(a: MdArraySnapshot) -> RaidState {
    if !a.consistent {
        RaidState::Unknown
    } else if action_active(a.action@) {
        RaidState::Rebuilding
    } else if a.degraded > 0 || any_member_problem(a.members@) {
        RaidState::Degraded
    } else if a.state is Active || a.state is ActiveIdle || a.state is Clean {
        RaidState::Active
    } else {
        RaidState::Unknown
    }
}

/// Minutes, rounded up.
pub open spec fn minutes_of(seconds: u64) -> u64 {
    ((seconds + 59) / 60) as u64
}

pub open spec fn clamp_u8(n: int) -> u8 {
    if n > 255 {
        255
    } else {
        n as u8
    }
}

/// The array summary from the kernel's own speed.
pub open spec fn summary_of(a: MdArraySnapshot) -> RaidSummaryView {
    RaidSummaryView {
        name: a.name@,
        state: array_raid_state(a),
        rebuild_speed_mb: match a.sync_speed_kib_per_sec {
            Some(v) => Some(v / 1024),
            None => None,
        },
        eta_minutes: match (a.progress, a.sync_speed_kib_per_sec) {
            (Some(p), Some(speed)) => match eta_of(p, speed) {
                Some(s) => Some(minutes_of(s)),
                None => None,
            },
            _ => None,
        },
        active_disks: clamp_u8(if a.raid_disks > a.degraded {
            a.raid_disks - a.degraded
        } else {
            0
        }),
        total_disks: clamp_u8(a.raid_disks as int),
    }
}

/// An array summary with its name taken as text.
pub struct RaidSummaryView {
    pub name: Seq<char>,
    pub state: RaidState,
    pub rebuild_speed_mb: Option<u64>,
    pub eta_minutes: Option<u64>,
    pub active_disks: u8,
    pub total_disks: u8,
}

pub open spec fn summary_view(s: RaidSummary) -> RaidSummaryView {
    RaidSummaryView {
        name: s.name@,
        state: s.state,
        rebuild_speed_mb: s.rebuild_speed_mb,
        eta_minutes: s.eta_minutes,
        active_disks: s.active_disks,
        total_disks: s.total_disks,
    }
}

fn has_member_problem(members: &Vec<MdMemberSnapshot>) -> (r: bool)
    ensures
        r == any_member_problem(members@),
{
    let mut i: usize = 0;
    while i < members.len()
        invariant
            i <= members@.len(),
            forall|k: int| 0 <= k < i ==> !member_problem(#[trigger] members@[k]),
        decreases members@.len() - i,
    {
        let state = &members[i].state;
        if state.contains("faulty") || state.contains("blocked") || state.contains("write_error") {
            assert(member_problem(members@[i as int]));
            return true;
        }
        i = i + 1;
    }
    false
}

fn minutes(seconds: u64) -> (m: u64)
    ensures
        m == minutes_of(seconds),
{
    let q = seconds / 60;
    let r = seconds % 60;
    assert(seconds == q * 60 + r && r < 60);
    if r > 0 {
        assert((seconds + 59) / 60 == q + 1) by (nonlinear_arith)
            requires
                seconds == q * 60 + r,
                0 < r < 60,
        ;
        q + 1
    } else {
        assert((seconds + 59) / 60 == q) by (nonlinear_arith)
            requires
                seconds == q * 60,
        ;
        q
    }
}


impl MdArraySnapshot {
    /// The array summary from the kernel's own speed and progress; the
    /// progress fraction is left to the caller.
    pub fn legacy_summary(&self) -> (s: RaidSummary)
        ensures
            summary_view(s) == summary_of(*self),
    {
        let total: u8 = if self.raid_disks > 255 {
            255
        } else {
            self.raid_disks as u8
        };
        let working: u32 = self.raid_disks.saturating_sub(self.degraded);
        let active: u8 = if working > 255 {
            255
        } else {
            working as u8
        };
        let state = if !self.consistent {
            RaidState::Unknown
        } else if self.action.is_active() {
            RaidState::Rebuilding
        } else if self.degraded > 0 || has_member_problem(&self.members) {
            RaidState::Degraded
        } else {
            match self.state {
                MdArrayState::Active | MdArrayState::ActiveIdle | MdArrayState::Clean => RaidState::Active,
                _ => RaidState::Unknown,
            }
        };
        let rebuild_speed_mb = match self.sync_speed_kib_per_sec {
            Some(v) => Some(v / 1024),
            None => None,
        };
        let eta_minutes = match (self.progress, self.sync_speed_kib_per_sec) {
            (Some(p), Some(speed)) => match p.eta_seconds(speed) {
                Some(seconds) => Some(minutes(seconds)),
                None => None,
            },
            _ => None,
        };
        RaidSummary {
            name: self.name.clone(),
            state,
            rebuild_speed_mb,
            eta_minutes,
            active_disks: active,
            total_disks: total,
        }
    }
}

/// What the sampler keeps of an array's running operation.
#[derive(Debug)]
pub struct MdOperationBaseline {
    pub name: String,
    pub action: MdSyncAction,
    pub total_sectors: u64,
    pub completed_sectors: u64,
    pub metadata_version: String,
    pub raid_disks: u32,
    pub observed_at_nanos: u128,
}

pub struct BaselineView {
    pub name: Seq<char>,
    pub action: MdSyncActionView,
    pub total_sectors: u64,
    pub completed_sectors: u64,
    pub metadata_version: Seq<char>,
    pub raid_disks: u32,
    pub observed_at_nanos: u128,
}

impl View for MdOperationBaseline {
    type V = BaselineView;

    open spec fn view(&self) -> BaselineView {
        BaselineView {
            name: self.name@,
            action: self.action@,
            total_sectors: self.total_sectors,
            completed_sectors: self.completed_sectors,
            metadata_version: self.metadata_version@,
            raid_disks: self.raid_disks,
            observed_at_nanos: self.observed_at_nanos,
        }
    }
}

/// Replaces the kernel's rebuild speed by one measured between samples, so
/// that the speed and ETA follow the real progress.
#[derive(Debug)]
pub struct MdOperationSampler {
    previous: Vec<MdOperationBaseline>,
}

impl Default for MdOperationSampler {
    fn default() -> (r: MdOperationSampler)
        ensures
            r.baselines() == Seq::<BaselineView>::empty(),
    {
        let r = MdOperationSampler { previous: Vec::new() };
        assert(r.baselines() =~= Seq::<BaselineView>::empty());
        r
    }
}

/// The speed in KiB/s of `delta` sectors over `elapsed` nanoseconds,
/// rounded down and capped at `u64::MAX`; none without progress or time.
pub open spec fn delta_speed_of(delta_sectors: u64, elapsed_nanos: u128) -> Option<u64> {
    if delta_sectors == 0 || elapsed_nanos == 0 {
        None
    } else {
        let speed = (delta_sectors * 1_000_000_000) / (2 * elapsed_nanos);
        if speed > u64::MAX {
            Some(u64::MAX)
        } else {
            Some(speed as u64)
        }
    }
}

fn delta_speed_kib(delta_sectors: u64, elapsed_nanos: u128) -> (r: Option<u64>)
    ensures
        r == delta_speed_of(delta_sectors, elapsed_nanos),
{
    if delta_sectors == 0 || elapsed_nanos == 0 {
        return None;
    }
    let numerator: u128 = delta_sectors as u128 * 1_000_000_000;
    if elapsed_nanos > 0x7fff_ffff_ffff_ffff_ffff_ffff_ffff_ffff {
        // Twice the time does not fit; the speed is then below one KiB/s.
        assert((numerator as int) < 2 * (elapsed_nanos as int));
        assert((numerator as int) / (2 * (elapsed_nanos as int)) == 0) by (nonlinear_arith)
            requires
                0 <= (numerator as int) < 2 * (elapsed_nanos as int),
        ;
        return Some(0);
    }
    let speed: u128 = numerator / (2 * elapsed_nanos);
    if speed > 0xffff_ffff_ffff_ffff {
        Some(0xffff_ffff_ffff_ffff)
    } else {
        Some(speed as u64)
    }
}

/// Index of the first baseline with this name from `i` on, or -1.
pub open spec fn find_baseline(v: Seq<BaselineView>, name: Seq<char>, i: int) -> int
    decreases v.len() - i,
{
    if i < 0 || i >= v.len() {
        -1
    } else if v[i].name == name {
        i
    } else {
        find_baseline(v, name, i + 1)
    }
}

pub open spec fn put_baseline(v: Seq<BaselineView>, b: BaselineView) -> Seq<BaselineView> {
    if find_baseline(v, b.name, 0) >= 0 {
        v.update(find_baseline(v, b.name, 0), b)
    } else {
        v.push(b)
    }
}

pub open spec fn remove_baseline(v: Seq<BaselineView>, name: Seq<char>) -> Seq<BaselineView> {
    if find_baseline(v, name, 0) >= 0 {
        v.remove(find_baseline(v, name, 0))
    } else {
        v
    }
}

/// One array of a round. Without a running operation its baseline is
/// dropped. Otherwise, when the previous baseline is of the same operation
/// and progress did not go back: no progress or a window under two seconds
/// keeps the kernel's speed and the older baseline; a longer window replaces
/// the speed and ETA by the measured ones. The baseline is then renewed.
pub open spec fn md_step(
    state: (Seq<BaselineView>, Seq<RaidSummaryView>),
    a: MdArraySnapshot,
    now: u128,
) -> (Seq<BaselineView>, Seq<RaidSummaryView>) {
    let (prev, out) = state;
    let status = summary_of(a);
    match a.progress {
        Some(p) if action_active(a.action@) => {
            let i = find_baseline(prev, a.name@, 0);
            let matched = i >= 0 && prev[i].action == a.action@ && prev[i].total_sectors
                == p.total_sectors && prev[i].metadata_version == a.metadata_version@
                && prev[i].raid_disks == a.raid_disks && p.completed_sectors
                >= prev[i].completed_sectors;
            let delta = (p.completed_sectors - prev[i].completed_sectors) as u64;
            let elapsed = if now >= prev[i].observed_at_nanos {
                (now - prev[i].observed_at_nanos) as u128
            } else {
                0
            };
            let keep = matched && (delta == 0 || elapsed < MIN_DELTA_SAMPLE_NANOS);
            let measured = if matched && !keep {
                delta_speed_of(delta, elapsed)
            } else {
                None
            };
            let shown = match measured {
                Some(speed) => RaidSummaryView {
                    rebuild_speed_mb: Some(speed / 1024),
                    eta_minutes: match eta_of(p, speed) {
                        Some(s) => Some(minutes_of(s)),
                        None => None,
                    },
                    ..status
                },
                None => status,
            };
            let baseline = BaselineView {
                name: a.name@,
                action: a.action@,
                total_sectors: p.total_sectors,
                completed_sectors: p.completed_sectors,
                metadata_version: a.metadata_version@,
                raid_disks: a.raid_disks,
                observed_at_nanos: now,
            };
            (
                if keep {
                    prev
                } else {
                    put_baseline(prev, baseline)
                },
                out.push(shown),
            )
        },
        _ => (remove_baseline(prev, a.name@), out.push(status)),
    }
}

pub open spec fn md_fold(
    start: (Seq<BaselineView>, Seq<RaidSummaryView>),
    arrays: Seq<MdArraySnapshot>,
    k: int,
    now: u128,
) -> (Seq<BaselineView>, Seq<RaidSummaryView>)
    decreases k,
{
    if k <= 0 {
        start
    } else {
        md_step(md_fold(start, arrays, k - 1, now), arrays[k - 1], now)
    }
}

pub open spec fn array_present(arrays: Seq<MdArraySnapshot>) -> spec_fn(BaselineView) -> bool {
    |b: BaselineView| exists|i: int| 0 <= i < arrays.len() && #[trigger] arrays[i].name@ == b.name
}

/// A round drops the baselines of arrays that are gone, then runs every
/// array in order.
pub open spec fn md_round(prev: Seq<BaselineView>, arrays: Seq<MdArraySnapshot>, now: u128) -> (
    Seq<BaselineView>,
    Seq<RaidSummaryView>,
) {
    md_fold((prev.filter(array_present(arrays)), seq![]), arrays, arrays.len() as int, now)
}

fn find_baseline_index(prev: &Vec<MdOperationBaseline>, name: &String, Ghost(v): Ghost<Seq<BaselineView>>) -> (r: Option<usize>)
    requires
        v == prev@.map_values(|b: MdOperationBaseline| b@),
    ensures
        r matches Some(i) ==> i as int == find_baseline(v, name@, 0) && i < prev@.len(),
        r is None ==> find_baseline(v, name@, 0) < 0,
{
    let mut i: usize = 0;
    while i < prev.len()
        invariant
            v == prev@.map_values(|b: MdOperationBaseline| b@),
            i <= prev@.len(),
            find_baseline(v, name@, 0) == find_baseline(v, name@, i as int),
        decreases prev@.len() - i,
    {
        if prev[i].name == *name {
            assert(v[i as int].name == name@);
            return Some(i);
        }
        i = i + 1;
    }
    None
}

fn array_named(arrays: &Vec<MdArraySnapshot>, name: &String) -> (r: bool)
    ensures
        r == exists|i: int| 0 <= i < arrays@.len() && #[trigger] arrays@[i].name@ == name@,
{
    let mut i: usize = 0;
    while i < arrays.len()
        invariant
            i <= arrays@.len(),
            forall|k: int| 0 <= k < i ==> arrays@[k].name@ != name@,
        decreases arrays@.len() - i,
    {
        if arrays[i].name == *name {
            assert(arrays@[i as int].name@ == name@);
            return true;
        }
        i = i + 1;
    }
    false
}

impl MdOperationSampler {
    pub closed spec fn baselines(&self) -> Seq<BaselineView> {
        self.previous@.map_values(|b: MdOperationBaseline| b@)
    }

    /// The summaries of an inventory's arrays at monotonic time `now_nanos`.
    pub fn statuses(&mut self, inventory: &MdInventory, now_nanos: u128) -> (r: Vec<RaidSummary>)
        ensures
            (final(self).baselines(), r@.map_values(|s: RaidSummary| summary_view(s))) == md_round(
                old(self).baselines(),
                inventory.arrays@,
                now_nanos,
            ),
    {
        let ghost start = self.baselines();
        let mut kept: Vec<MdOperationBaseline> = Vec::new();
        let mut j: usize = 0;
        proof {
            reveal(Seq::filter);
        }
        while j < self.previous.len()
            invariant
                start == self.baselines(),
                j <= self.previous@.len(),
                kept@.map_values(|b: MdOperationBaseline| b@) == start.take(j as int).filter(
                    array_present(inventory.arrays@),
                ),
            decreases self.previous@.len() - j,
        {
            proof {
                reveal(Seq::filter);
            }
            assert(start.take(j + 1).drop_last() =~= start.take(j as int));
            assert(start.take(j + 1).last() == start[j as int]);
            assert(start[j as int] == self.previous@[j as int]@);
            let ghost before = kept@.map_values(|b: MdOperationBaseline| b@);
            if array_named(&inventory.arrays, &self.previous[j].name) {
                let b = &self.previous[j];
                kept.push(
                    MdOperationBaseline {
                        name: b.name.clone(),
                        action: b.action.duplicate(),
                        total_sectors: b.total_sectors,
                        completed_sectors: b.completed_sectors,
                        metadata_version: b.metadata_version.clone(),
                        raid_disks: b.raid_disks,
                        observed_at_nanos: b.observed_at_nanos,
                    },
                );
                assert(kept@.map_values(|b: MdOperationBaseline| b@) =~= before.push(start[j as int]));
            }
            j = j + 1;
        }
        assert(start.take(start.len() as int) =~= start);
        self.previous = kept;
        let mut out: Vec<RaidSummary> = Vec::new();
        assert(out@.map_values(|s: RaidSummary| summary_view(s)) =~= Seq::<RaidSummaryView>::empty());
        let mut k: usize = 0;
        while k < inventory.arrays.len()
            invariant
                k <= inventory.arrays@.len(),
                (self.baselines(), out@.map_values(|s: RaidSummary| summary_view(s))) == md_fold(
                    (start.filter(array_present(inventory.arrays@)), seq![]),
                    inventory.arrays@,
                    k as int,
                    now_nanos,
                ),
            decreases inventory.arrays@.len() - k,
        {
            let array = &inventory.arrays[k];
            let ghost prev = self.baselines();
            let ghost outs = out@.map_values(|s: RaidSummary| summary_view(s));
            let mut status = array.legacy_summary();
            let active = array.action.is_active();
            match array.progress {
                Some(p) if active => {
                    let found = find_baseline_index(&self.previous, &array.name, Ghost(prev));
                    let mut keep = false;
                    match found {
                        Some(i) => {
                            let b = &self.previous[i];
                            if b.action.same_as(&array.action) && b.total_sectors == p.total_sectors
                                && b.metadata_version == array.metadata_version && b.raid_disks
                                == array.raid_disks && p.completed_sectors >= b.completed_sectors {
                                let delta = p.completed_sectors - b.completed_sectors;
                                let elapsed: u128 = if now_nanos >= b.observed_at_nanos {
                                    now_nanos - b.observed_at_nanos
                                } else {
                                    0
                                };
                                if delta == 0 || elapsed < MIN_DELTA_SAMPLE_NANOS {
                                    keep = true;
                                } else {
                                    match delta_speed_kib(delta, elapsed) {
                                        Some(speed) => {
                                            status.rebuild_speed_mb = Some(speed / 1024);
                                            status.eta_minutes = match p.eta_seconds(speed) {
                                                Some(seconds) => Some(minutes(seconds)),
                                                None => None,
                                            };
                                        },
                                        None => {},
                                    }
                                }
                            }
                        },
                        None => {},
                    }
                    if !keep {
                        let baseline = MdOperationBaseline {
                            name: array.name.clone(),
                            action: array.action.duplicate(),
                            total_sectors: p.total_sectors,
                            completed_sectors: p.completed_sectors,
                            metadata_version: array.metadata_version.clone(),
                            raid_disks: array.raid_disks,
                            observed_at_nanos: now_nanos,
                        };
                        let ghost view = baseline@;
                        match found {
                            Some(i) => {
                                self.previous.set(i, baseline);
                                assert(self.baselines() =~= prev.update(i as int, view));
                            },
                            None => {
                                self.previous.push(baseline);
                                assert(self.baselines() =~= prev.push(view));
                            },
                        }
                        assert(self.baselines() == put_baseline(prev, view));
                    }
                },
                _ => {
                    match find_baseline_index(&self.previous, &array.name, Ghost(prev)) {
                        Some(i) => {
                            let ghost old_prev = self.previous@;
                            self.previous.remove(i);
                            assert(self.previous@ == old_prev.remove(i as int));
                            assert(self.baselines() =~= prev.remove(i as int));
                        },
                        None => {},
                    }
                },
            }
            let ghost shown = summary_view(status);
            out.push(status);
            assert(out@.map_values(|s: RaidSummary| summary_view(s)) =~= outs.push(shown));
            assert((self.baselines(), out@.map_values(|s: RaidSummary| summary_view(s))) == md_step(
                (prev, outs),
                inventory.arrays@[k as int],
                now_nanos,
            ));
            k = k + 1;
        }
        out
    }
}

/// A summary that reports the same array as `base`: its name, state and
/// disk counts, whatever speed and ETA it shows.
pub open spec fn same_array_fields(s: RaidSummaryView, base: RaidSummaryView) -> bool {
    s.name == base.name && s.state == base.state && s.active_disks == base.active_disks
        && s.total_disks == base.total_disks
}

proof fn lemma_fold_summaries(
    start: (Seq<BaselineView>, Seq<RaidSummaryView>),
    arrays: Seq<MdArraySnapshot>,
    k: int,
    now: u128,
)
    requires
        0 <= k <= arrays.len(),
    ensures
        md_fold(start, arrays, k, now).1.len() == start.1.len() + k,
        forall|j: int| 0 <= j < start.1.len() ==> #[trigger] md_fold(start, arrays, k, now).1[j] == start.1[j],
        forall|i: int|
            0 <= i < k ==> same_array_fields(
                #[trigger] md_fold(start, arrays, k, now).1[start.1.len() + i],
                summary_of(arrays[i]),
            ),
    decreases k,
{
    if k > 0 {
        lemma_fold_summaries(start, arrays, k - 1, now);
        let before = md_fold(start, arrays, k - 1, now);
        let after = md_fold(start, arrays, k, now);
        assert(after == md_step(before, arrays[k - 1], now));
        assert(after.1 == before.1.push(after.1.last()));
        assert(same_array_fields(after.1.last(), summary_of(arrays[k - 1])));
        assert forall|i: int| 0 <= i < k implies same_array_fields(
            #[trigger] after.1[start.1.len() + i],
            summary_of(arrays[i]),
        ) by {
            if i < k - 1 {
                assert(after.1[start.1.len() + i] == before.1[start.1.len() + i]);
            }
        }
    }
}

/// Delta sampling only refines speed and ETA: a round reports one summary
/// per array, in the inventory's order, each with the array's own name,
/// state and disk counts.
pub proof fn lemma_round_keeps_array_summaries(
    prev: Seq<BaselineView>,
    arrays: Seq<MdArraySnapshot>,
    now: u128,
)
    ensures
        md_round(prev, arrays, now).1.len() == arrays.len(),
        forall|i: int|
            0 <= i < arrays.len() ==> same_array_fields(
                #[trigger] md_round(prev, arrays, now).1[i],
                summary_of(arrays[i]),
            ),
{
    let start = (prev.filter(array_present(arrays)), Seq::<RaidSummaryView>::empty());
    lemma_fold_summaries(start, arrays, arrays.len() as int, now);
    assert forall|i: int| 0 <= i < arrays.len() implies same_array_fields(
        #[trigger] md_round(prev, arrays, now).1[i],
        summary_of(arrays[i]),
    ) by {
        assert(md_round(prev, arrays, now).1[i] == md_fold(start, arrays, arrays.len() as int, now).1[start.1.len() + i]);
    }
}

/// Two snapshots of the same running operation of one array: the same name,
/// action, metadata, member count and total size, both with progress.
pub open spec fn same_operation(a: MdArraySnapshot, b: MdArraySnapshot) -> bool {
    &&& a.name@ == b.name@
    &&& a.action@ == b.action@
    &&& a.metadata_version@ == b.metadata_version@
    &&& a.raid_disks == b.raid_disks
    &&& a.progress is Some
    &&& b.progress is Some
    &&& a.progress->0.total_sectors == b.progress->0.total_sectors
}

/// The summary of `a` with the speed and ETA measured at `speed` KiB/s.
pub open spec fn measured_summary(a: MdArraySnapshot, speed: u64) -> RaidSummaryView {
    RaidSummaryView {
        rebuild_speed_mb: Some(speed / 1024),
        eta_minutes: match eta_of(a.progress->0, speed) {
            Some(s) => Some(minutes_of(s)),
            None => None,
        },
        ..summary_of(a)
    }
}

/// One round of a sampler over the single array `a`.
pub open spec fn single_round(prev: Seq<BaselineView>, a: MdArraySnapshot, now: u128) -> (
    Seq<BaselineView>,
    Seq<RaidSummaryView>,
) {
    md_round(prev, seq![a], now)
}

/// A fresh sampler follows one running operation. Its first sample shows
/// the kernel's speed. A second sample less than two seconds later also
/// shows the kernel's speed and ETA and keeps the first baseline, however
/// far progress jumped. A later sample, two seconds or more after the first
/// and with more progress, shows the speed measured since the first sample.
pub proof fn lemma_short_window_then_delta(
    first: MdArraySnapshot,
    early: MdArraySnapshot,
    late: MdArraySnapshot,
    t0: u128,
    t1: u128,
    t2: u128,
)
    requires
        action_active(first.action@),
        same_operation(first, early),
        same_operation(first, late),
        first.progress->0.completed_sectors <= early.progress->0.completed_sectors,
        t0 <= t1,
        t1 - t0 < MIN_DELTA_SAMPLE_NANOS,
        t2 >= t0 + MIN_DELTA_SAMPLE_NANOS,
        late.progress->0.completed_sectors > first.progress->0.completed_sectors,
    ensures
        single_round(seq![], first, t0).1 == seq![summary_of(first)],
        single_round(single_round(seq![], first, t0).0, early, t1).0 == single_round(seq![], first, t0).0,
        single_round(single_round(seq![], first, t0).0, early, t1).1 == seq![summary_of(early)],
        delta_speed_of(
            (late.progress->0.completed_sectors - first.progress->0.completed_sectors) as u64,
            (t2 - t0) as u128,
        ) is Some,
        single_round(single_round(single_round(seq![], first, t0).0, early, t1).0, late, t2).1
            == seq![
            measured_summary(
                late,
                delta_speed_of(
                    (late.progress->0.completed_sectors - first.progress->0.completed_sectors) as u64,
                    (t2 - t0) as u128,
                )->0,
            ),
        ],
{
    reveal(Seq::filter);
    let p0 = first.progress->0;
    let b0 = BaselineView {
        name: first.name@,
        action: first.action@,
        total_sectors: p0.total_sectors,
        completed_sectors: p0.completed_sectors,
        metadata_version: first.metadata_version@,
        raid_disks: first.raid_disks,
        observed_at_nanos: t0,
    };
    // The first round starts from nothing and stores `b0`.
    let e = Seq::<BaselineView>::empty();
    assert(e.filter(array_present(seq![first])) =~= e);
    assert(md_fold((e, seq![]), seq![first], 0, t0) == (e, Seq::<RaidSummaryView>::empty()));
    assert(find_baseline(e, first.name@, 0) == -1);
    let r0 = single_round(e, first, t0);
    assert(r0.0 =~= seq![b0]);
    assert(r0.1 =~= seq![summary_of(first)]);
    // The second round finds `b0` and keeps it.
    let f1 = array_present(seq![early]);
    assert(seq![early][0].name@ == b0.name);
    assert(f1(b0));
    assert(seq![b0].filter(f1) =~= seq![b0]) by {
        assert(seq![b0].drop_last() =~= e);
        assert(e.filter(f1) =~= e);
    }
    assert(find_baseline(seq![b0], early.name@, 0) == 0);
    assert(md_fold((seq![b0], seq![]), seq![early], 0, t1) == (seq![b0], Seq::<RaidSummaryView>::empty()));
    let r1 = single_round(r0.0, early, t1);
    assert(r1.0 =~= seq![b0]);
    assert(r1.1 =~= seq![summary_of(early)]);
    // The third round measures against `b0`.
    let f2 = array_present(seq![late]);
    assert(seq![late][0].name@ == b0.name);
    assert(f2(b0));
    assert(seq![b0].filter(f2) =~= seq![b0]) by {
        assert(seq![b0].drop_last() =~= e);
        assert(e.filter(f2) =~= e);
    }
    assert(find_baseline(seq![b0], late.name@, 0) == 0);
    assert(md_fold((seq![b0], seq![]), seq![late], 0, t2) == (seq![b0], Seq::<RaidSummaryView>::empty()));
    let delta = (late.progress->0.completed_sectors - p0.completed_sectors) as u64;
    let elapsed = (t2 - t0) as u128;
    assert(delta > 0 && elapsed > 0);
    let r2 = single_round(r1.0, late, t2);
    assert(r2.1 =~= seq![measured_summary(late, delta_speed_of(delta, elapsed)->0)]);
}

/// The disk counts an array reports: as many members as it is built from,
/// less the missing ones, never below zero, and both shown up to 255. So a
/// degraded array of 1 to 255 members never shows every member active.
pub proof fn lemma_disk_counts(a: MdArraySnapshot)
    ensures
        summary_of(a).total_disks as int == (if a.raid_disks > 255 {
            255
        } else {
            a.raid_disks as int
        }),
        summary_of(a).active_disks as int == (if a.degraded >= a.raid_disks {
            0
        } else if a.raid_disks - a.degraded > 255 {
            255
        } else {
            a.raid_disks - a.degraded
        }),
        summary_of(a).active_disks <= summary_of(a).total_disks,
        a.degraded > 0 && 0 < a.raid_disks <= 255 ==> summary_of(a).active_disks < summary_of(a).total_disks,
{
}

/// Every summary a sampling round reports shows the disk counts of its
/// array, whatever speed it measured.
pub proof fn lemma_round_disk_counts(prev: Seq<BaselineView>, arrays: Seq<MdArraySnapshot>, now: u128, i: int)
    requires
        0 <= i < arrays.len(),
    ensures
        md_round(prev, arrays, now).1[i].active_disks == summary_of(arrays[i]).active_disks,
        md_round(prev, arrays, now).1[i].total_disks == summary_of(arrays[i]).total_disks,
        arrays[i].degraded > 0 && 0 < arrays[i].raid_disks <= 255 ==> md_round(prev, arrays, now).1[i].active_disks
            < md_round(prev, arrays, now).1[i].total_disks,
{
    lemma_round_keeps_array_summaries(prev, arrays, now);
    assert(same_array_fields(md_round(prev, arrays, now).1[i], summary_of(arrays[i])));
    lemma_disk_counts(arrays[i]);
}

} // verus!
