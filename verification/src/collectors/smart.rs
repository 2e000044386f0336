//! `smartctl -a -d scsi` output: the health facts the monitor reads from it
//! and the classification of output that carries no health verdict.
use vstd::prelude::*;
use vstd::string::*;
use vstd::utf8::*;

use crate::broker::capability::{io_class_of, io_failure_class, IoFailureClass};
use crate::monitor::{unavailable_disk, DiskInfo, DiskInfoView, HealthStatus, MetricAvailability};
use crate::matching::{capture_group, regex_group, regex_is_match, regex_matches};
use crate::text::{parse_unsigned, same_text, unsigned_value};

verus! {

pub const SERIAL_PATTERN: &'static str = r"Serial number:\s+(\S+)";
pub const TEMPERATURE_PATTERN: &'static str = r"Current Drive Temperature:\s+(\d+) C";
pub const HEALTH_PATTERN: &'static str = r"SMART Health Status:\s+(\w+)";
pub const HOURS_PATTERN: &'static str = r"Power_On_Hours:\s+(\d+)";
pub const DEFECTS_PATTERN: &'static str = r"Elements in grown defect list:\s+(\d+)";
pub const NON_MEDIUM_PATTERN: &'static str = r"Non-medium error count:\s+(\d+)";
pub const READ_ERRORS_PATTERN: &'static str = r"read:\s+\S+\s+\S+\s+\S+\s+\S+\s+(\d+)";
pub const WRITE_ERRORS_PATTERN: &'static str = r"write:\s+\S+\s+\S+\s+\S+\s+\S+\s+(\d+)";

/// A captured number: what `str::parse` gives for an unsigned type whose
/// largest value is `max`.
pub open spec fn captured_number(capture: Option<Seq<char>>, max: nat) -> Option<nat> {
    match capture {
        Some(t) => unsigned_value(encode_utf8(t), max),
        None => None,
    }
}

fn capture_number(pattern: &str, text: &str, max: u64) -> (r: Option<u64>)
    ensures
        match captured_number(regex_group(pattern@, text@, 1), max as nat) {
            Some(v) => r == Some(v as u64),
            None => r is None,
        },
{
    match capture_group(pattern, text, 1) {
        Some(t) => parse_unsigned(t.as_str().as_bytes(), max),
        None => None,
    }
}

/// `c` with ASCII capitals made small, as `to_ascii_lowercase` does.
pub open spec fn ascii_lower(b: u8) -> u8 {
    if 0x41 <= b <= 0x5a {
        (b + 0x20) as u8
    } else {
        b
    }
}

/// Whether `needle` occurs in `hay` at `i`.
pub open spec fn occurs_at(hay: Seq<u8>, needle: Seq<u8>, i: int) -> bool {
    0 <= i && i + needle.len() <= hay.len() && hay.subrange(i, i + needle.len()) == needle
}

pub open spec fn bytes_contain(hay: Seq<u8>, needle: Seq<u8>) -> bool {
    exists|i: int| #[trigger] occurs_at(hay, needle, i)
}

fn occurs(hay: &Vec<u8>, needle: &[u8], i: usize) -> (r: bool)
    requires
        i + needle@.len() <= hay@.len(),
    ensures
        r == occurs_at(hay@, needle@, i as int),
{
    let n = hay.len();
    let mut j: usize = 0;
    while j < needle.len()
        invariant
            n == hay@.len(),
            i + needle@.len() <= hay@.len(),
            j <= needle@.len(),
            forall|m: int| 0 <= m < j ==> hay@[i + m] == needle@[m],
        decreases needle@.len() - j,
    {
        if hay[i + j] != needle[j] {
            assert(hay@.subrange(i as int, i + needle@.len())[j as int] != needle@[j as int]);
            return false;
        }
        j = j + 1;
    }
    assert(hay@.subrange(i as int, i + needle@.len()) =~= needle@);
    true
}

fn contains_bytes(hay: &Vec<u8>, needle: &[u8]) -> (r: bool)
    ensures
        r == bytes_contain(hay@, needle@),
{
    if needle.len() == 0 {
        assert(hay@.subrange(0, 0) =~= needle@);
        assert(occurs_at(hay@, needle@, 0));
        return true;
    }
    if needle.len() > hay.len() {
        proof {
            if bytes_contain(hay@, needle@) {
                let i = choose|i: int| #[trigger] occurs_at(hay@, needle@, i);
            }
        }
        return false;
    }
    let positions = hay.len() - needle.len() + 1;
    let mut i: usize = 0;
    while i < positions
        invariant
            needle@.len() >= 1,
            needle@.len() <= hay@.len(),
            positions == hay@.len() - needle@.len() + 1,
            i <= positions,
            forall|k: int| 0 <= k < i ==> !#[trigger] occurs_at(hay@, needle@, k),
        decreases positions - i,
    {
        if occurs(hay, needle, i) {
            return true;
        }
        i = i + 1;
    }
    proof {
        if bytes_contain(hay@, needle@) {
            let k = choose|k: int| #[trigger] occurs_at(hay@, needle@, k);
            assert(k < i);
        }
    }
    false
}

/// The diagnostic text of a run: standard output, a line feed and standard
/// error, in ASCII lower case.
pub open spec fn diagnostic_bytes(stdout: Seq<char>, stderr: Seq<char>) -> Seq<u8> {
    (encode_utf8(stdout) + seq![0x0au8] + encode_utf8(stderr)).map_values(|b: u8| ascii_lower(b))
}

/// Why a run yielded no health verdict, from its diagnostics: permission,
/// sleep, a vanished device and unsupported devices are told apart; output
/// that has a health line with an unknown verdict is malformed; anything
/// else is temporary.
pub open spec fn unavailable_class(stdout: Seq<char>, stderr: Seq<char>) -> MetricAvailability {
    let d = diagnostic_bytes(stdout, stderr);
    if bytes_contain(d, encode_utf8("permission denied"@)) || bytes_contain(
        d,
        encode_utf8("operation not permitted"@),
    ) {
        MetricAvailability::PermissionDenied
    } else if bytes_contain(d, encode_utf8("standby"@)) || bytes_contain(
        d,
        encode_utf8("sleep mode"@),
    ) {
        MetricAvailability::Asleep
    } else if bytes_contain(d, encode_utf8("no such device"@)) || bytes_contain(
        d,
        encode_utf8("device gone"@),
    ) {
        MetricAvailability::DeviceGone
    } else if bytes_contain(d, encode_utf8("unsupported"@)) || bytes_contain(
        d,
        encode_utf8("unknown device type"@),
    ) || bytes_contain(d, encode_utf8("not supported"@)) {
        MetricAvailability::Unsupported
    } else if regex_matches(HEALTH_PATTERN@, stdout) {
        MetricAvailability::Malformed
    } else {
        MetricAvailability::TemporarilyUnavailable
    }
}

fn push_lowered(out: &mut Vec<u8>, bytes: &[u8])
    ensures
        final(out)@ == old(out)@ + bytes@.map_values(|b: u8| ascii_lower(b)),
{
    let ghost start = out@;
    let mut i: usize = 0;
    while i < bytes.len()
        invariant
            i <= bytes@.len(),
            out@ == start + bytes@.take(i as int).map_values(|b: u8| ascii_lower(b)),
        decreases bytes@.len() - i,
    {
        let b = bytes[i];
        let lowered = if 0x41 <= b && b <= 0x5a {
            b + 0x20
        } else {
            b
        };
        out.push(lowered);
        assert(bytes@.take(i + 1).map_values(|b: u8| ascii_lower(b)) =~= bytes@.take(i as int).map_values(
            |b: u8| ascii_lower(b),
        ).push(ascii_lower(b)));
        i = i + 1;
    }
    assert(bytes@.take(bytes@.len() as int) =~= bytes@);
}

pub fn classify_unavailable_output(stdout: &str, stderr: &str) -> (r: MetricAvailability)
    ensures
        r == unavailable_class(stdout@, stderr@),
{
    let mut d: Vec<u8> = Vec::new();
    push_lowered(&mut d, stdout.as_bytes());
    d.push(0x0a);
    push_lowered(&mut d, stderr.as_bytes());
    assert(d@ =~= diagnostic_bytes(stdout@, stderr@));
    if contains_bytes(&d, "permission denied".as_bytes()) || contains_bytes(
        &d,
        "operation not permitted".as_bytes(),
    ) {
        MetricAvailability::PermissionDenied
    } else if contains_bytes(&d, "standby".as_bytes()) || contains_bytes(
        &d,
        "sleep mode".as_bytes(),
    ) {
        MetricAvailability::Asleep
    } else if contains_bytes(&d, "no such device".as_bytes()) || contains_bytes(
        &d,
        "device gone".as_bytes(),
    ) {
        MetricAvailability::DeviceGone
    } else if contains_bytes(&d, "unsupported".as_bytes()) || contains_bytes(
        &d,
        "unknown device type".as_bytes(),
    ) || contains_bytes(&d, "not supported".as_bytes()) {
        MetricAvailability::Unsupported
    } else if regex_is_match(HEALTH_PATTERN, stdout) {
        MetricAvailability::Malformed
    } else {
        MetricAvailability::TemporarilyUnavailable
    }
}

/// The verdict of a health word: OK or PASSED is healthy, FAIL, FAILED or
/// BAD is failed, and any other word gives no verdict.
pub open spec fn health_of(word: Option<Seq<char>>) -> HealthStatus {
    match word {
        Some(w) => if w == "OK"@ || w == "PASSED"@ {
            HealthStatus::Healthy
        } else if w == "FAIL"@ || w == "FAILED"@ || w == "BAD"@ {
            HealthStatus::Failed
        } else {
            HealthStatus::Unavailable
        },
        None => HealthStatus::Unavailable,
    }
}

pub open spec fn as_u64(v: Option<nat>) -> Option<u64> {
    match v {
        Some(n) => Some(n as u64),
        None => None,
    }
}

/// The disk facts of one `smartctl` run. A temperature of 0 C is a
/// sentinel of unsupported translations and is no reading.
pub open spec fn smart_report(device: Seq<char>, output: Seq<char>, d: DiskInfo) -> bool {
    let temperature = captured_number(regex_group(TEMPERATURE_PATTERN@, output, 1), 255);
    let health = health_of(regex_group(HEALTH_PATTERN@, output, 1));
    &&& d.device@ == device
    &&& match regex_group(SERIAL_PATTERN@, output, 1) {
        Some(s) => d.serial matches Some(t) && t@ == s,
        None => d.serial is None,
    }
    &&& d.temperature_c == (match temperature {
        Some(t) => if t > 0 {
            Some(t as u8)
        } else {
            None
        },
        None => None,
    })
    &&& d.health == health
    &&& d.health_availability == (if health == HealthStatus::Unavailable {
        unavailable_class(output, ""@)
    } else {
        MetricAvailability::Available
    })
    &&& d.power_on_hours == as_u64(
        captured_number(regex_group(HOURS_PATTERN@, output, 1), u64::MAX as nat),
    )
    &&& d.grown_defects == as_u64(
        captured_number(regex_group(DEFECTS_PATTERN@, output, 1), u64::MAX as nat),
    )
    &&& d.non_medium_errors == as_u64(
        captured_number(regex_group(NON_MEDIUM_PATTERN@, output, 1), u64::MAX as nat),
    )
    &&& d.read_errors == as_u64(
        captured_number(regex_group(READ_ERRORS_PATTERN@, output, 1), u64::MAX as nat),
    )
    &&& d.write_errors == as_u64(
        captured_number(regex_group(WRITE_ERRORS_PATTERN@, output, 1), u64::MAX as nat),
    )
}

/// Reads the disk facts of one `smartctl` run.
pub fn parse_smart_output(device: &str, output: &str) -> (d: DiskInfo)
    ensures
        smart_report(device@, output@, d),
{
    let serial = capture_group(SERIAL_PATTERN, output, 1);
    let temperature_c = match capture_number(TEMPERATURE_PATTERN, output, 255) {
        Some(t) => if t > 0 {
            Some(t as u8)
        } else {
            None
        },
        None => None,
    };
    let health = match capture_group(HEALTH_PATTERN, output, 1) {
        Some(w) => {
            if same_text(w.as_str(), "OK") || same_text(w.as_str(), "PASSED") {
                HealthStatus::Healthy
            } else if same_text(w.as_str(), "FAIL") || same_text(w.as_str(), "FAILED")
                || same_text(w.as_str(), "BAD") {
                HealthStatus::Failed
            } else {
                HealthStatus::Unavailable
            }
        },
        None => HealthStatus::Unavailable,
    };
    let health_availability = if health == HealthStatus::Unavailable {
        classify_unavailable_output(output, "")
    } else {
        MetricAvailability::Available
    };
    DiskInfo {
        device: String::from_str(device),
        serial,
        temperature_c,
        health,
        health_availability,
        power_on_hours: capture_number(HOURS_PATTERN, output, 0xffff_ffff_ffff_ffff),
        grown_defects: capture_number(DEFECTS_PATTERN, output, 0xffff_ffff_ffff_ffff),
        non_medium_errors: capture_number(NON_MEDIUM_PATTERN, output, 0xffff_ffff_ffff_ffff),
        read_errors: capture_number(READ_ERRORS_PATTERN, output, 0xffff_ffff_ffff_ffff),
        write_errors: capture_number(WRITE_ERRORS_PATTERN, output, 0xffff_ffff_ffff_ffff),
    }
}

/// The disk facts of one finished `smartctl` run: those of its output, and
/// when that gives no health verdict, why, as the output and the error
/// output tell it.
pub fn smart_run_result(device: &str, stdout: &str, stderr: &str) -> (d: DiskInfo)
    ensures
        ({
            &&& d.health != HealthStatus::Unavailable ==> smart_report(device@, stdout@, d)
            &&& d.health == HealthStatus::Unavailable ==> d.health_availability == unavailable_class(
                stdout@,
                stderr@,
            ) && exists|p: DiskInfo|
                smart_report(device@, stdout@, p) && p.health == HealthStatus::Unavailable && d == DiskInfo {
                    health_availability: d.health_availability,
                    ..p
                }
        }),
{
    let mut info = parse_smart_output(device, stdout);
    if info.health == HealthStatus::Unavailable {
        let ghost p = info;
        info.health_availability = classify_unavailable_output(stdout, stderr);
        assert(smart_report(device@, stdout@, p) && p.health == HealthStatus::Unavailable);
    }
    info
}

/// How a start failure of `smartctl` is reported: a missing program means
/// no support, a refused one missing permission, anything else a passing
/// failure.
pub open spec fn launch_availability_of(class: IoFailureClass) -> MetricAvailability {
    match class {
        IoFailureClass::NotFound => MetricAvailability::Unsupported,
        IoFailureClass::PermissionDenied => MetricAvailability::PermissionDenied,
        _ => MetricAvailability::TemporarilyUnavailable,
    }
}

pub fn launch_availability(class: IoFailureClass) -> (r: MetricAvailability)
    ensures
        r == launch_availability_of(class),
{
    match class {
        IoFailureClass::NotFound => MetricAvailability::Unsupported,
        IoFailureClass::PermissionDenied => MetricAvailability::PermissionDenied,
        _ => MetricAvailability::TemporarilyUnavailable,
    }
}

/// The disk facts when `smartctl` could not be started for `device`.
pub fn launch_failure(device: String, error: &std::io::Error) -> (d: DiskInfo)
    ensures
        d@ == (DiskInfoView { health_availability: d.health_availability, ..unavailable_disk(device@) }),
        d.health_availability == launch_availability_of(io_class_of(*error)),
{
    let mut info = DiskInfo::unavailable(device);
    info.health_availability = launch_availability(io_failure_class(error));
    info
}

} // verus!
