//! The user configuration: which settings are safe to act on, the colors
//! it names, and the commands and device list derived from it. Reading the
//! file and the system is left to the caller.
use vstd::prelude::*;
use vstd::string::*;
use vstd::utf8::*;

use crate::collectors::md_sysfs::{trim_all, trim_text};
use crate::monitor::DepError;
use crate::order::{sort_by_key, stable_sort, ByteKeyed};
use crate::text::{has_prefix, parse_unsigned, range_bytes, ranges_bytes, ranges_within, same_text, split_lines, split_tokens, starts_with, text_lines, tokens, unsigned_value};

verus! {

/// The `[system]` table.
#[derive(Debug, Clone)]
pub struct SystemConfig {
    /// The privilege prefix for smartctl: `sudo`, `doas`, or empty for none.
    pub smartctl_prefix: Option<String>,
    /// The smartctl executable; `smartctl` on the search path when absent.
    pub smartctl_path: Option<String>,
    /// A compatibility key that is validated but never executed.
    pub iostat_path: Option<String>,
    /// The disks to monitor, by kernel name.
    pub devices: Option<Vec<String>>,
}

/// The `[discord]` table.
#[derive(Debug, Clone)]
pub struct DiscordConfig {
    pub webhook_url: Option<String>,
}

/// The executables the configuration may name.
#[derive(Debug, Clone, Copy, PartialEq, Eq, Structural)]
pub enum Executable {
    Smartctl,
    Iostat,
}

impl Executable {
    pub open spec fn name_of(self) -> Seq<char> {
        match self {
            Executable::Smartctl => "smartctl"@,
            Executable::Iostat => "iostat"@,
        }
    }

    /// The file name the executable must have.
    pub fn name(&self) -> (r: &'static str)
        ensures
            r@ == self.name_of(),
    {
        match self {
            Executable::Smartctl => "smartctl",
            Executable::Iostat => "iostat",
        }
    }
}

/// Why a configuration is refused.
#[derive(Debug, Clone, PartialEq, Eq)]
pub enum ConfigError {
    SmartctlPrefix,
    ExecutableName(Executable),
    UntrustedDirectory(Executable),
    InvalidDevice(String),
    Webhook,
    LineColors,
    IoBackground,
}

/// `ConfigError` with its text as characters.
pub enum ConfigErrorView {
    SmartctlPrefix,
    ExecutableName(Executable),
    UntrustedDirectory(Executable),
    InvalidDevice(Seq<char>),
    Webhook,
    LineColors,
    IoBackground,
}

impl View for ConfigError {
    type V = ConfigErrorView;

    open spec fn view(&self) -> ConfigErrorView {
        match self {
            ConfigError::SmartctlPrefix => ConfigErrorView::SmartctlPrefix,
            ConfigError::ExecutableName(e) => ConfigErrorView::ExecutableName(*e),
            ConfigError::UntrustedDirectory(e) => ConfigErrorView::UntrustedDirectory(*e),
            ConfigError::InvalidDevice(d) => ConfigErrorView::InvalidDevice(d@),
            ConfigError::Webhook => ConfigErrorView::Webhook,
            ConfigError::LineColors => ConfigErrorView::LineColors,
            ConfigError::IoBackground => ConfigErrorView::IoBackground,
        }
    }
}

/// A color given as `#RRGGBB`.
#[derive(Debug, Clone, Copy, PartialEq, Eq, Structural)]
pub struct RgbColor {
    pub r: u8,
    pub g: u8,
    pub b: u8,
}

/// The last component of a path, as `Path::file_name` gives it, when it
/// is valid text.
pub uninterp spec fn file_name_of(path: Seq<char>) -> Option<Seq<char>>;

/// The number of components `Path::components` yields.
pub uninterp spec fn component_count_of(path: Seq<char>) -> nat;

/// The path without its last component, as `Path::parent` gives it.
pub uninterp spec fn parent_of(path: Seq<char>) -> Option<Seq<char>>;

/// Calls `Path::file_name` and `OsStr::to_str`: the final component of the
/// path, unless it ends in `..`. The result is only named here.
#[verifier::external_body]
pub(crate) fn path_file_name(path: &str) -> (r: Option<String>)
    ensures
        r matches Some(n) ==> file_name_of(path@) == Some(n@),
        r is None ==> file_name_of(path@) is None,
{
    std::path::Path::new(path).file_name().and_then(|name| name.to_str()).map(|name| name.to_string())
}

/// Calls `Path::components` and counts them. The count is only named here.
#[verifier::external_body]
fn path_component_count(path: &str) -> (r: usize)
    ensures
        r == component_count_of(path@),
{
    std::path::Path::new(path).components().count()
}

/// Calls `Path::parent`: the path without its final component, if there
/// is one. The result is only named here.
#[verifier::external_body]
pub(crate) fn path_parent(path: &str) -> (r: Option<String>)
    ensures
        r matches Some(p) ==> parent_of(path@) == Some(p@),
        r is None ==> parent_of(path@) is None,
{
    std::path::Path::new(path).parent().and_then(|parent| parent.to_str()).map(|parent| parent.to_string())
}

/// Calls `Path::is_absolute`, which on Unix is documented to hold exactly
/// when the path starts with the root `/`.
#[verifier::external_body]
pub(crate) fn path_is_absolute(path: &str) -> (r: bool)
    ensures
        r == (path@.len() > 0 && path@[0] == '/'),
{
    std::path::Path::new(path).is_absolute()
}

/// The directories from which a configured executable may be run.
pub open spec fn trusted_directory(p: Seq<char>) -> bool {
    ||| p == "/bin"@
    ||| p == "/sbin"@
    ||| p == "/usr/bin"@
    ||| p == "/usr/sbin"@
    ||| p == "/usr/local/bin"@
    ||| p == "/usr/local/sbin"@
}

/// Why a configured executable path is refused, if it is: its file name
/// must be the executable's own, and a path of more than one component
/// must be absolute and lie directly in a trusted directory.
pub open spec fn executable_error(value: Option<Seq<char>>, exe: Executable) -> Option<ConfigErrorView> {
    match value {
        None => None,
        Some(v) => if file_name_of(v) != Some(exe.name_of()) {
            Some(ConfigErrorView::ExecutableName(exe))
        } else if component_count_of(v) > 1 && !((v.len() > 0 && v[0] == '/') && (parent_of(v) matches Some(
            p,
        ) && trusted_directory(p))) {
            Some(ConfigErrorView::UntrustedDirectory(exe))
        } else {
            None
        },
    }
}

pub open spec fn opt_view(s: Option<String>) -> Option<Seq<char>> {
    match s {
        Some(t) => Some(t@),
        None => None,
    }
}

fn is_trusted_directory(p: &str) -> (r: bool)
    ensures
        r == trusted_directory(p@),
{
    same_text(p, "/bin") || same_text(p, "/sbin") || same_text(p, "/usr/bin") || same_text(p, "/usr/sbin")
        || same_text(p, "/usr/local/bin") || same_text(p, "/usr/local/sbin")
}

/// Checks a configured executable path.
pub fn validate_executable(value: Option<&str>, exe: Executable) -> (r: Result<(), ConfigError>)
    ensures
        match executable_error(
            match value {
                Some(v) => Some(v@),
                None => None,
            },
            exe,
        ) {
            None => r is Ok,
            Some(e) => r matches Err(x) && x@ == e,
        },
{
    let v = match value {
        None => return Ok(()),
        Some(v) => v,
    };
    let name_matches = match path_file_name(v) {
        Some(n) => same_text(n.as_str(), exe.name()),
        None => false,
    };
    if !name_matches {
        return Err(ConfigError::ExecutableName(exe));
    }
    if path_component_count(v) > 1 {
        let trusted = match path_parent(v) {
            Some(p) => is_trusted_directory(p.as_str()),
            None => false,
        };
        if !path_is_absolute(v) || !trusted {
            return Err(ConfigError::UntrustedDirectory(exe));
        }
    }
    Ok(())
}

pub open spec fn is_device_name_byte(b: u8) -> bool {
    (0x30 <= b <= 0x39) || (0x41 <= b <= 0x5a) || (0x61 <= b <= 0x7a) || b == 0x2d || b == 0x5f
}

/// A device name is a kernel name: ASCII letters, digits, `-` and `_`, and
/// at least one of them. Nothing that could be a path.
pub open spec fn valid_device_name(s: Seq<u8>) -> bool {
    s.len() > 0 && forall|i: int| 0 <= i < s.len() ==> is_device_name_byte(#[trigger] s[i])
}

/// The first invalid device name at or after `i`.
pub open spec fn first_invalid_device(devices: Seq<String>, i: int) -> Option<int>
    decreases devices.len() - i,
{
    if i < 0 || i >= devices.len() {
        None
    } else if !valid_device_name(encode_utf8(devices[i]@)) {
        Some(i)
    } else {
        first_invalid_device(devices, i + 1)
    }
}

/// Why the `[system]` table is refused, if it is: a prefix other than
/// `sudo`, `doas` or empty, then the smartctl path, then the iostat path,
/// then the first invalid device name.
pub open spec fn system_error(s: SystemConfig) -> Option<ConfigErrorView> {
    if s.smartctl_prefix matches Some(p) && !(p@ == ""@ || p@ == "sudo"@ || p@ == "doas"@) {
        Some(ConfigErrorView::SmartctlPrefix)
    } else if executable_error(opt_view(s.smartctl_path), Executable::Smartctl) is Some {
        executable_error(opt_view(s.smartctl_path), Executable::Smartctl)
    } else if executable_error(opt_view(s.iostat_path), Executable::Iostat) is Some {
        executable_error(opt_view(s.iostat_path), Executable::Iostat)
    } else {
        match s.devices {
            Some(d) => match first_invalid_device(d@, 0) {
                Some(i) => Some(ConfigErrorView::InvalidDevice(d@[i]@)),
                None => None,
            },
            None => None,
        }
    }
}

fn device_name_ok(name: &str) -> (r: bool)
    ensures
        r == valid_device_name(encode_utf8(name@)),
{
    let b = name.as_bytes();
    if b.len() == 0 {
        return false;
    }
    let mut i: usize = 0;
    while i < b.len()
        invariant
            i <= b@.len(),
            b@ == encode_utf8(name@),
            forall|k: int| 0 <= k < i ==> is_device_name_byte(#[trigger] b@[k]),
        decreases b@.len() - i,
    {
        let c = b[i];
        if !((0x30 <= c && c <= 0x39) || (0x41 <= c && c <= 0x5a) || (0x61 <= c && c <= 0x7a) || c == 0x2d
            || c == 0x5f) {
            return false;
        }
        i = i + 1;
    }
    true
}

/// Checks the `[system]` table.
pub fn validate_system(system: &SystemConfig) -> (r: Result<(), ConfigError>)
    ensures
        match system_error(*system) {
            None => r is Ok,
            Some(e) => r matches Err(x) && x@ == e,
        },
{
    if let Some(p) = &system.smartctl_prefix {
        if !(same_text(p.as_str(), "") || same_text(p.as_str(), "sudo") || same_text(p.as_str(), "doas")) {
            return Err(ConfigError::SmartctlPrefix);
        }
    }
    let smartctl = match &system.smartctl_path {
        Some(v) => Some(v.as_str()),
        None => None,
    };
    validate_executable(smartctl, Executable::Smartctl)?;
    let iostat = match &system.iostat_path {
        Some(v) => Some(v.as_str()),
        None => None,
    };
    validate_executable(iostat, Executable::Iostat)?;
    if let Some(devices) = &system.devices {
        let mut i: usize = 0;
        while i < devices.len()
            invariant
                i <= devices@.len(),
                system_error(*system) == (match first_invalid_device(devices@, i as int) {
                    Some(k) => Some(ConfigErrorView::InvalidDevice(devices@[k]@)),
                    None => None,
                }),
            decreases devices@.len() - i,
        {
            if !device_name_ok(devices[i].as_str()) {
                let d = devices[i].clone();
                assert(first_invalid_device(devices@, i as int) == Some(i as int));
                return Err(ConfigError::InvalidDevice(d));
            }
            i = i + 1;
        }
    }
    Ok(())
}

/// The prefix every Discord webhook address starts with.
pub open spec fn webhook_prefix() -> Seq<char> {
    "https://discord.com/api/webhooks/"@
}

/// Why the `[discord]` table is refused, if it is: a webhook address that
/// is not blank must be a Discord webhook endpoint over HTTPS.
pub open spec fn discord_error(d: DiscordConfig) -> Option<ConfigErrorView> {
    match d.webhook_url {
        Some(url) => if trim_all(url@).len() > 0 && !has_prefix(url@, webhook_prefix()) {
            Some(ConfigErrorView::Webhook)
        } else {
            None
        },
        None => None,
    }
}

/// Checks the `[discord]` table.
pub fn validate_discord(discord: &DiscordConfig) -> (r: Result<(), ConfigError>)
    ensures
        match discord_error(*discord) {
            None => r is Ok,
            Some(e) => r matches Err(x) && x@ == e,
        },
{
    if let Some(url) = &discord.webhook_url {
        let trimmed = trim_text(url.as_str());
        if trimmed.as_str().unicode_len() > 0 && !starts_with(url.as_str(), "https://discord.com/api/webhooks/") {
            return Err(ConfigError::Webhook);
        }
    }
    Ok(())
}

/// Whether the notifier has somewhere to send alerts: a webhook address
/// that is not blank.
pub fn outbound_notifications(discord: Option<&DiscordConfig>) -> (r: bool)
    ensures
        r == (discord matches Some(d) && d.webhook_url matches Some(u) && trim_all(u@).len() > 0),
{
    match discord {
        Some(d) => match &d.webhook_url {
            Some(u) => trim_text(u.as_str()).as_str().unicode_len() > 0,
            None => false,
        },
        None => false,
    }
}

pub open spec fn hex_digit_value(b: u8) -> Option<nat> {
    if 0x30 <= b <= 0x39 {
        Some((b - 0x30) as nat)
    } else if 0x41 <= b <= 0x46 {
        Some((b - 0x41 + 10) as nat)
    } else if 0x61 <= b <= 0x66 {
        Some((b - 0x61 + 10) as nat)
    } else {
        None
    }
}

/// The byte given by two hex digits.
pub open spec fn hex_pair(hi: u8, lo: u8) -> nat {
    hex_digit_value(hi).unwrap() * 16 + hex_digit_value(lo).unwrap()
}

/// The color a `#RRGGBB` text names: `#` and then exactly six hex digits.
pub open spec fn hex_color(s: Seq<u8>) -> Option<RgbColor> {
    if s.len() == 7 && s[0] == 0x23 && forall|i: int| 1 <= i < 7 ==> #[trigger] hex_digit_value(s[i]) is Some {
        Some(
            RgbColor {
                r: hex_pair(s[1], s[2]) as u8,
                g: hex_pair(s[3], s[4]) as u8,
                b: hex_pair(s[5], s[6]) as u8,
            },
        )
    } else {
        None
    }
}

fn hex_digit(b: u8) -> (r: Option<u8>)
    ensures
        match hex_digit_value(b) {
            Some(v) => r == Some(v as u8),
            None => r is None,
        },
{
    if 0x30 <= b && b <= 0x39 {
        Some(b - 0x30)
    } else if 0x41 <= b && b <= 0x46 {
        Some(b - 0x41 + 10)
    } else if 0x61 <= b && b <= 0x66 {
        Some(b - 0x61 + 10)
    } else {
        None
    }
}

/// Parses a `#RRGGBB` color.
pub fn parse_hex(value: &str) -> (r: Option<RgbColor>)
    ensures
        r == hex_color(encode_utf8(value@)),
{
    let s = value.as_bytes();
    if s.len() != 7 || s[0] != 0x23 {
        return None;
    }
    let mut digits: Vec<u8> = Vec::new();
    let mut i: usize = 1;
    while i < 7
        invariant
            1 <= i <= 7,
            s@ == encode_utf8(value@),
            s@[0] == 0x23,
            s@.len() == 7,
            digits@.len() == i - 1,
            forall|k: int| 1 <= k < i ==> #[trigger] hex_digit_value(s@[k]) is Some && digits@[k - 1] == hex_digit_value(s@[k]).unwrap(),
        decreases 7 - i,
    {
        match hex_digit(s[i]) {
            Some(d) => digits.push(d),
            None => {
                assert(hex_digit_value(s@[i as int]) is None);
                return None;
            },
        }
        i = i + 1;
    }
    proof {
        assert(hex_digit_value(s@[1]) is Some && hex_digit_value(s@[2]) is Some);
        assert(hex_digit_value(s@[3]) is Some && hex_digit_value(s@[4]) is Some);
        assert(hex_digit_value(s@[5]) is Some && hex_digit_value(s@[6]) is Some);
    }
    Some(RgbColor {
        r: digits[0] * 16 + digits[1],
        g: digits[2] * 16 + digits[3],
        b: digits[4] * 16 + digits[5],
    })
}

/// Whether every text of `values` is a `#RRGGBB` color.
pub open spec fn all_colors(values: Seq<String>) -> bool {
    forall|i: int| 0 <= i < values.len() ==> #[trigger] hex_color(encode_utf8(values[i]@)) is Some
}

/// Why the color settings of the `[graph]` table are refused, if they are:
/// the line colors must be one to sixteen `#RRGGBB` colors, the background
/// one such color.
pub open spec fn graph_colors_error(line_colors: Option<Seq<String>>, io_background: Option<String>) -> Option<
    ConfigErrorView,
> {
    if line_colors matches Some(c) && (c.len() == 0 || c.len() > 16 || !all_colors(c)) {
        Some(ConfigErrorView::LineColors)
    } else if io_background matches Some(b) && hex_color(encode_utf8(b@)) is None {
        Some(ConfigErrorView::IoBackground)
    } else {
        None
    }
}

/// Checks the color settings of the `[graph]` table.
pub fn validate_graph_colors(line_colors: Option<&Vec<String>>, io_background: Option<&String>) -> (r: Result<
    (),
    ConfigError,
>)
    ensures
        match graph_colors_error(
            match line_colors {
                Some(c) => Some(c@),
                None => None,
            },
            match io_background {
                Some(b) => Some(*b),
                None => None,
            },
        ) {
            None => r is Ok,
            Some(e) => r matches Err(x) && x@ == e,
        },
{
    if let Some(colors) = line_colors {
        if colors.len() == 0 || colors.len() > 16 {
            return Err(ConfigError::LineColors);
        }
        let mut i: usize = 0;
        while i < colors.len()
            invariant
                i <= colors@.len(),
                line_colors == Some(colors),
                1 <= colors@.len() <= 16,
                forall|k: int| 0 <= k < i ==> #[trigger] hex_color(encode_utf8(colors@[k]@)) is Some,
            decreases colors@.len() - i,
        {
            if parse_hex(colors[i].as_str()).is_none() {
                assert(hex_color(encode_utf8(colors@[i as int]@)) is None);
                return Err(ConfigError::LineColors);
            }
            i = i + 1;
        }
    }
    if let Some(b) = io_background {
        if parse_hex(b.as_str()).is_none() {
            return Err(ConfigError::IoBackground);
        }
    }
    Ok(())
}

/// The colors of `values` that parse, in order.
pub open spec fn parsed_colors(values: Seq<String>) -> Seq<RgbColor>
    decreases values.len(),
{
    if values.len() == 0 {
        seq![]
    } else {
        let rest = parsed_colors(values.drop_last());
        match hex_color(encode_utf8(values.last()@)) {
            Some(c) => rest.push(c),
            None => rest,
        }
    }
}

/// The line colors of the graph theme: those of `values` that parse.
pub fn line_colors(values: &Vec<String>) -> (r: Vec<RgbColor>)
    ensures
        r@ == parsed_colors(values@),
{
    let mut r: Vec<RgbColor> = Vec::new();
    let mut i: usize = 0;
    while i < values.len()
        invariant
            i <= values@.len(),
            r@ == parsed_colors(values@.subrange(0, i as int)),
        decreases values@.len() - i,
    {
        let ghost t = values@.subrange(0, i + 1);
        assert(t.drop_last() =~= values@.subrange(0, i as int));
        if let Some(c) = parse_hex(values[i].as_str()) {
            r.push(c);
        }
        i = i + 1;
    }
    assert(values@.subrange(0, values@.len() as int) =~= values@);
    r
}

/// The program and leading arguments that run smartctl. An explicit empty
/// prefix runs smartctl directly; another prefix runs it through that
/// program; without one, smartctl runs directly as root and through `sudo`
/// otherwise.
pub fn smartctl_base_cmd(system: Option<&SystemConfig>, running_as_root: bool) -> (r: (String, Vec<String>))
    ensures
        ({
            let path = match system {
                Some(s) => match s.smartctl_path {
                    Some(p) => p@,
                    None => "smartctl"@,
                },
                None => "smartctl"@,
            };
            let prefix = match system {
                Some(s) => opt_view(s.smartctl_prefix),
                None => None,
            };
            match prefix {
                Some(p) => if p == ""@ {
                    r.0@ == path && r.1@.len() == 0
                } else {
                    r.0@ == p && r.1@.len() == 1 && r.1@[0]@ == path
                },
                None => if running_as_root {
                    r.0@ == path && r.1@.len() == 0
                } else {
                    r.0@ == "sudo"@ && r.1@.len() == 1 && r.1@[0]@ == path
                },
            }
        }),
{
    let path: String = match system {
        Some(s) => match &s.smartctl_path {
            Some(p) => p.clone(),
            None => "smartctl".to_string(),
        },
        None => "smartctl".to_string(),
    };
    let prefix: Option<&String> = match system {
        Some(s) => match &s.smartctl_prefix {
            Some(p) => Some(p),
            None => None,
        },
        None => None,
    };
    match prefix {
        Some(p) => {
            if same_text(p.as_str(), "") {
                (path, Vec::new())
            } else {
                let mut args: Vec<String> = Vec::new();
                args.push(path);
                (p.clone(), args)
            }
        },
        None => {
            if running_as_root {
                (path, Vec::new())
            } else {
                let mut args: Vec<String> = Vec::new();
                args.push(path);
                ("sudo".to_string(), args)
            }
        },
    }
}

/// `Uid:`.
pub open spec fn uid_key() -> Seq<u8> {
    seq![0x55u8, 0x69, 0x64, 0x3a]
}

/// The index of the first line of `lines` that starts with `Uid:`.
pub open spec fn first_uid_line(lines: Seq<Seq<u8>>, i: int) -> Option<int>
    decreases lines.len() - i,
{
    if i < 0 || i >= lines.len() {
        None
    } else if lines[i].len() >= 4 && lines[i].subrange(0, 4) == uid_key() {
        Some(i)
    } else {
        first_uid_line(lines, i + 1)
    }
}

/// The real user id in a `/proc/self/status` text: the second field of the
/// first line that starts with `Uid:`, as a `u32`.
pub open spec fn status_uid(content: Seq<u8>) -> Option<nat> {
    match first_uid_line(text_lines(content), 0) {
        Some(i) => {
            let fields = tokens(text_lines(content)[i]);
            if fields.len() >= 2 {
                unsigned_value(fields[1], u32::MAX as nat)
            } else {
                None
            }
        },
        None => None,
    }
}

/// Reads the real user id from a `/proc/self/status` text.
pub fn uid_from_status(content: &str) -> (r: Option<u32>)
    ensures
        match status_uid(encode_utf8(content@)) {
            Some(v) => r == Some(v as u32),
            None => r is None,
        },
{
    let bytes = content.as_bytes();
    let lines = split_lines(bytes);
    let ghost ls = text_lines(bytes@);
    let mut k: usize = 0;
    while k < lines.len()
        invariant
            bytes@ == encode_utf8(content@),
            ls == text_lines(bytes@),
            ranges_bytes(bytes@, lines@) == ls,
            ranges_within(bytes@, lines@),
            k <= lines@.len(),
            first_uid_line(ls, 0) == first_uid_line(ls, k as int),
        decreases lines@.len() - k,
    {
        let (start, end) = lines[k];
        assert(ls[k as int] == range_bytes(bytes@, lines@[k as int]));
        if end - start >= 4 && bytes[start] == 0x55 && bytes[start + 1] == 0x69 && bytes[start + 2] == 0x64
            && bytes[start + 3] == 0x3a {
            assert(ls[k as int].subrange(0, 4) =~= uid_key());
            let line = vstd::slice::slice_subrange(bytes, start, end);
            assert(line@ == ls[k as int]);
            let fields = split_tokens(line);
            if fields.len() < 2 {
                return None;
            }
            let (a, b) = fields[1];
            let field = vstd::slice::slice_subrange(line, a, b);
            assert(field@ == tokens(line@)[1]) by {
                assert(tokens(line@)[1] == range_bytes(line@, fields@[1]));
            }
            return match parse_unsigned(field, u32::MAX as u64) {
                Some(v) => Some(v as u32),
                None => None,
            };
        }
        proof {
            if ls[k as int].len() >= 4 {
                let l = ls[k as int];
                if l.subrange(0, 4) == uid_key() {
                    assert(l.subrange(0, 4)[0] == l[0] && l.subrange(0, 4)[1] == l[1]);
                    assert(l.subrange(0, 4)[2] == l[2] && l.subrange(0, 4)[3] == l[3]);
                    assert(l[0] == bytes@[start as int]);
                }
            }
        }
        k = k + 1;
    }
    None
}

impl ByteKeyed for String {
    open spec fn key_of(&self) -> Seq<u8> {
        encode_utf8(self@)
    }

    fn key(&self) -> (k: &[u8]) {
        self.as_str().as_bytes()
    }
}

/// The names of the block devices to monitor by default: those that start
/// with `sd`, sorted.
pub open spec fn default_devices(names: Seq<String>) -> Seq<String> {
    stable_sort(names.filter(|n: String| has_prefix(n@, "sd"@)))
}

/// The default device list from the names found under `/sys/block`.
pub fn detect_disk_devices(names: Vec<String>) -> (r: Vec<String>)
    ensures
        r@ == default_devices(names@),
{
    let mut kept: Vec<String> = Vec::new();
    let mut i: usize = 0;
    while i < names.len()
        invariant
            i <= names@.len(),
            kept@ == names@.subrange(0, i as int).filter(|n: String| has_prefix(n@, "sd"@)),
        decreases names@.len() - i,
    {
        proof {
            reveal(Seq::filter);
            assert(names@.subrange(0, i + 1).drop_last() =~= names@.subrange(0, i as int));
        }
        if starts_with(names[i].as_str(), "sd") {
            kept.push(names[i].clone());
        }
        i = i + 1;
    }
    assert(names@.subrange(0, names@.len() as int) =~= names@);
    sort_by_key(kept)
}

/// The devices to monitor: the configured list when it names any, else the
/// detected ones.
pub fn resolve_devices(system: Option<&SystemConfig>, detected: Vec<String>) -> (r: Vec<String>)
    ensures
        ({
            let configured = match system {
                Some(s) => match s.devices {
                    Some(d) => d@.len() > 0,
                    None => false,
                },
                None => false,
            };
            if configured {
                r@.len() == system.unwrap().devices.unwrap()@.len() && forall|i: int|
                    0 <= i < r@.len() ==> #[trigger] r@[i]@ == system.unwrap().devices.unwrap()@[i]@
            } else {
                r@ == detected@
            }
        }),
{
    if let Some(s) = system {
        if let Some(d) = &s.devices {
            if d.len() > 0 {
                let mut r: Vec<String> = Vec::new();
                let mut i: usize = 0;
                while i < d.len()
                    invariant
                        i <= d@.len(),
                        r@.len() == i,
                        forall|k: int| 0 <= k < i ==> #[trigger] r@[k]@ == d@[k]@,
                    decreases d@.len() - i,
                {
                    r.push(d[i].clone());
                    i = i + 1;
                }
                return r;
            }
        }
    }
    detected
}

/// The distribution family, for the install hint of a missing tool.
#[derive(Debug, Clone, Copy, PartialEq, Eq, Structural)]
pub enum Distro {
    Ubuntu,
    Debian,
    Fedora,
    Rhel,
    Arch,
    Opensuse,
    Alpine,
    Unknown,
}

/// `ID=`.
pub open spec fn id_key() -> Seq<u8> {
    seq![0x49u8, 0x44, 0x3d]
}

/// `s` without the double quotes at either end.
pub open spec fn trim_quotes(s: Seq<u8>) -> Seq<u8>
    decreases s.len(),
{
    if s.len() > 0 && s[0] == 0x22 {
        trim_quotes(s.drop_first())
    } else if s.len() > 0 && s.last() == 0x22 {
        trim_quotes(s.drop_last())
    } else {
        s
    }
}

pub open spec fn lower_byte(b: u8) -> u8 {
    if 0x41 <= b <= 0x5a {
        (b + 0x20) as u8
    } else {
        b
    }
}

/// `s` with its ASCII capitals made small.
pub open spec fn ascii_lower(s: Seq<u8>) -> Seq<u8> {
    s.map_values(|b: u8| lower_byte(b))
}

pub open spec fn is_id(id: Seq<u8>, name: Seq<char>) -> bool {
    id == encode_utf8(name)
}

/// The family an `os-release` identifier names.
pub open spec fn distro_of_id(id: Seq<u8>) -> Distro {
    if is_id(id, "ubuntu"@) {
        Distro::Ubuntu
    } else if is_id(id, "debian"@) {
        Distro::Debian
    } else if is_id(id, "fedora"@) {
        Distro::Fedora
    } else if is_id(id, "rhel"@) || is_id(id, "centos"@) || is_id(id, "rocky"@) || is_id(id, "almalinux"@)
        || is_id(id, "ol"@) {
        Distro::Rhel
    } else if is_id(id, "arch"@) || is_id(id, "manjaro"@) || is_id(id, "endeavouros"@) || is_id(id, "cachyos"@) {
        Distro::Arch
    } else if is_id(id, "opensuse"@) || is_id(id, "opensuse-leap"@) || is_id(id, "opensuse-tumbleweed"@)
        || is_id(id, "suse"@) {
        Distro::Opensuse
    } else if is_id(id, "alpine"@) {
        Distro::Alpine
    } else {
        Distro::Unknown
    }
}

/// The index of the first line of `lines` that starts with `ID=`.
pub open spec fn first_id_line(lines: Seq<Seq<u8>>, i: int) -> Option<int>
    decreases lines.len() - i,
{
    if i < 0 || i >= lines.len() {
        None
    } else if lines[i].len() >= 3 && lines[i].subrange(0, 3) == id_key() {
        Some(i)
    } else {
        first_id_line(lines, i + 1)
    }
}

/// The family an `/etc/os-release` text names: by the value of its first
/// `ID=` line, quotes removed and ASCII letters made small.
pub open spec fn os_release_distro(content: Seq<u8>) -> Distro {
    match first_id_line(text_lines(content), 0) {
        Some(i) => {
            let line = text_lines(content)[i];
            distro_of_id(ascii_lower(trim_quotes(line.subrange(3, line.len() as int))))
        },
        None => Distro::Unknown,
    }
}

fn id_is(id: &Vec<u8>, name: &str) -> (r: bool)
    ensures
        r == is_id(id@, name@),
{
    crate::text::bytes_equal(id.as_slice(), name.as_bytes())
}

fn distro_from_id(id: &Vec<u8>) -> (r: Distro)
    ensures
        r == distro_of_id(id@),
{
    if id_is(id, "ubuntu") {
        Distro::Ubuntu
    } else if id_is(id, "debian") {
        Distro::Debian
    } else if id_is(id, "fedora") {
        Distro::Fedora
    } else if id_is(id, "rhel") || id_is(id, "centos") || id_is(id, "rocky") || id_is(id, "almalinux") || id_is(
        id,
        "ol",
    ) {
        Distro::Rhel
    } else if id_is(id, "arch") || id_is(id, "manjaro") || id_is(id, "endeavouros") || id_is(id, "cachyos") {
        Distro::Arch
    } else if id_is(id, "opensuse") || id_is(id, "opensuse-leap") || id_is(id, "opensuse-tumbleweed") || id_is(
        id,
        "suse",
    ) {
        Distro::Opensuse
    } else if id_is(id, "alpine") {
        Distro::Alpine
    } else {
        Distro::Unknown
    }
}

proof fn lemma_trim_quotes_bounds(s: Seq<u8>, a: int, b: int)
    requires
        0 <= a <= b <= s.len(),
        forall|k: int| 0 <= k < a ==> s[k] == 0x22,
        forall|k: int| b <= k < s.len() ==> s[k] == 0x22,
        a < b ==> s[a] != 0x22 && s[b - 1] != 0x22,
    ensures
        trim_quotes(s) == s.subrange(a, b),
    decreases s.len(),
{
    if s.len() > 0 && s[0] == 0x22 {
        if a == 0 {
            assert(b == 0);
            let t = s.drop_first();
            assert forall|k: int| 0 <= k < t.len() implies t[k] == 0x22 by {
                assert(t[k] == s[k + 1]);
            }
            lemma_trim_quotes_bounds(t, 0, 0);
            assert(s.subrange(a, b) =~= t.subrange(0, 0));
        } else {
            lemma_trim_quotes_bounds(s.drop_first(), a - 1, b - 1);
            assert(s.subrange(a, b) =~= s.drop_first().subrange(a - 1, b - 1));
        }
    } else if s.len() > 0 && s.last() == 0x22 {
        assert(a == 0);
        if b == s.len() {
            assert(a == b);
        }
        lemma_trim_quotes_bounds(s.drop_last(), a, b);
        assert(s.subrange(a, b) =~= s.drop_last().subrange(a, b));
    } else {
        if s.len() > 0 {
            assert(a == 0);
            assert(b == s.len());
        }
        assert(s.subrange(a, b) =~= s);
    }
}

/// Reads the distribution family from an `/etc/os-release` text.
pub fn distro_from_os_release(content: &str) -> (r: Distro)
    ensures
        r == os_release_distro(encode_utf8(content@)),
{
    let bytes = content.as_bytes();
    let lines = split_lines(bytes);
    let ghost ls = text_lines(bytes@);
    let mut k: usize = 0;
    while k < lines.len()
        invariant
            bytes@ == encode_utf8(content@),
            ls == text_lines(bytes@),
            ranges_bytes(bytes@, lines@) == ls,
            ranges_within(bytes@, lines@),
            k <= lines@.len(),
            first_id_line(ls, 0) == first_id_line(ls, k as int),
        decreases lines@.len() - k,
    {
        let (start, end) = lines[k];
        assert(ls[k as int] == range_bytes(bytes@, lines@[k as int]));
        if end - start >= 3 && bytes[start] == 0x49 && bytes[start + 1] == 0x44 && bytes[start + 2] == 0x3d {
            let ghost line = ls[k as int];
            assert(line.subrange(0, 3) =~= id_key());
            let mut a: usize = start + 3;
            while a < end && bytes[a] == 0x22
                invariant
                    start + 3 <= a <= end <= bytes@.len(),
                    forall|q: int| start + 3 <= q < a ==> bytes@[q] == 0x22,
                decreases end - a,
            {
                a = a + 1;
            }
            let mut b: usize = end;
            while b > a && bytes[b - 1] == 0x22
                invariant
                    a <= b <= end <= bytes@.len(),
                    forall|q: int| b <= q < end ==> bytes@[q] == 0x22,
                decreases b - a,
            {
                b = b - 1;
            }
            let mut id: Vec<u8> = Vec::new();
            let mut q: usize = a;
            while q < b
                invariant
                    a <= q <= b <= bytes@.len(),
                    id@ == ascii_lower(bytes@.subrange(a as int, q as int)),
                decreases b - q,
            {
                let c = bytes[q];
                let l: u8 = if 0x41 <= c && c <= 0x5a {
                    c + 0x20
                } else {
                    c
                };
                id.push(l);
                q = q + 1;
                assert(id@ =~= ascii_lower(bytes@.subrange(a as int, q as int)));
            }
            proof {
                let rest = line.subrange(3, line.len() as int);
                assert(rest =~= bytes@.subrange(start + 3, end as int));
                lemma_trim_quotes_bounds(rest, a - start - 3, b - start - 3);
                assert(rest.subrange(a - start - 3, b - start - 3) =~= bytes@.subrange(a as int, b as int));
                assert(first_id_line(ls, k as int) == Some(k as int));
            }
            return distro_from_id(&id);
        }
        proof {
            let l = ls[k as int];
            if l.len() >= 3 && l.subrange(0, 3) == id_key() {
                assert(l.subrange(0, 3)[0] == l[0] && l.subrange(0, 3)[1] == l[1] && l.subrange(0, 3)[2] == l[2]);
            }
        }
        k = k + 1;
    }
    Distro::Unknown
}

impl Distro {
    pub open spec fn hint_of(self) -> Seq<char> {
        match self {
            Distro::Ubuntu | Distro::Debian => "sudo apt install smartmontools"@,
            Distro::Fedora | Distro::Rhel => "sudo dnf install smartmontools"@,
            Distro::Arch => "sudo pacman -S smartmontools"@,
            Distro::Opensuse => "sudo zypper install smartmontools"@,
            Distro::Alpine => "sudo apk add smartmontools"@,
            Distro::Unknown => "install smartmontools (see distro docs)"@,
        }
    }

    /// How to install smartmontools on this family.
    pub fn smartmontools_hint(&self) -> (r: &'static str)
        ensures
            r@ == self.hint_of(),
    {
        match self {
            Distro::Ubuntu | Distro::Debian => "sudo apt install smartmontools",
            Distro::Fedora | Distro::Rhel => "sudo dnf install smartmontools",
            Distro::Arch => "sudo pacman -S smartmontools",
            Distro::Opensuse => "sudo zypper install smartmontools",
            Distro::Alpine => "sudo apk add smartmontools",
            Distro::Unknown => "install smartmontools (see distro docs)",
        }
    }
}

/// The missing dependencies: smartctl, with the install hint of the
/// family, when running `smartctl --version` did not succeed.
pub fn missing_dependencies(smartctl_ok: bool, distro: Distro) -> (r: Vec<DepError>)
    ensures
        smartctl_ok ==> r@.len() == 0,
        !smartctl_ok ==> r@.len() == 1 && r@[0].tool@ == "smartctl"@ && r@[0].install_hint@ == distro.hint_of(),
{
    let mut r: Vec<DepError> = Vec::new();
    if !smartctl_ok {
        r.push(DepError { tool: "smartctl".to_string(), install_hint: distro.smartmontools_hint().to_string() });
    }
    r
}

} // verus!
