//! Character and byte helpers shared by the parsers.
use vstd::prelude::*;
use vstd::string::*;
use vstd::utf8::*;

verus! {

/// What `String::from_utf8_lossy` makes of a byte sequence.
pub uninterp spec fn utf8_lossy(bytes: Seq<u8>) -> Seq<char>;

/// Calls `String::from_utf8_lossy`. Its documentation promises that valid
/// UTF-8 is decoded unchanged; for other input the result is only named.
#[verifier::external_body]
pub(crate) fn decode_lossy(bytes: &[u8]) -> (s: String)
    ensures
        s@ == utf8_lossy(bytes@),
        valid_utf8(bytes@) ==> s@ == decode_utf8(bytes@),
{
    String::from_utf8_lossy(bytes).into_owned()
}

/// Calls `std::str::from_utf8`: it succeeds exactly on valid UTF-8 and then
/// borrows the same bytes as text.
#[verifier::external_body]
pub(crate) fn str_from_utf8(bytes: &[u8]) -> (s: Option<&str>)
    ensures
        s is Some <==> valid_utf8(bytes@),
        s matches Some(t) ==> t.spec_bytes() == bytes@ && t@ == decode_utf8(bytes@),
{
    std::str::from_utf8(bytes).ok()
}

pub open spec fn is_pad(c: char) -> bool {
    c == ' ' || c == '\0'
}

/// `s` without its leading spaces and NUL characters.
pub open spec fn trim_start_pad(s: Seq<char>) -> Seq<char>
    decreases s.len(),
{
    if s.len() > 0 && is_pad(s[0]) {
        trim_start_pad(s.drop_first())
    } else {
        s
    }
}

/// `s` without its trailing spaces and NUL characters.
pub open spec fn trim_end_pad(s: Seq<char>) -> Seq<char>
    decreases s.len(),
{
    if s.len() > 0 && is_pad(s.last()) {
        trim_end_pad(s.drop_last())
    } else {
        s
    }
}

/// `s` with spaces and NUL characters removed from both ends.
pub open spec fn trim_pad(s: Seq<char>) -> Seq<char> {
    trim_end_pad(trim_start_pad(s))
}

/// Removes spaces and NUL characters from both ends of `s`.
pub fn trim_padding(s: &str) -> (r: String)
    ensures
        r@ == trim_pad(s@),
{
    let n = s.unicode_len();
    let mut lo: usize = 0;
    assert(s@.subrange(0, n as int) =~= s@);
    while lo < n && (s.get_char(lo) == ' ' || s.get_char(lo) == '\0')
        invariant
            n == s@.len(),
            lo <= n,
            trim_start_pad(s@) == trim_start_pad(s@.subrange(lo as int, n as int)),
        decreases n - lo,
    {
        assert(s@.subrange(lo as int, n as int).drop_first() =~= s@.subrange(
            lo + 1,
            n as int,
        ));
        lo = lo + 1;
    }
    assert(trim_start_pad(s@) == s@.subrange(lo as int, n as int));
    let mut hi: usize = n;
    while hi > lo && (s.get_char(hi - 1) == ' ' || s.get_char(hi - 1) == '\0')
        invariant
            n == s@.len(),
            lo <= hi <= n,
            trim_pad(s@) == trim_end_pad(s@.subrange(lo as int, hi as int)),
        decreases hi - lo,
    {
        assert(s@.subrange(lo as int, hi as int).drop_last() =~= s@.subrange(
            lo as int,
            hi - 1,
        ));
        hi = hi - 1;
    }
    let part = s.substring_char(lo, hi);
    String::from_str(part)
}

/// `p` is a prefix of `s`.
pub open spec fn has_prefix(s: Seq<char>, p: Seq<char>) -> bool {
    p.len() <= s.len() && s.subrange(0, p.len() as int) == p
}

/// Whether `s` begins with `p`.
pub fn starts_with(s: &str, p: &str) -> (r: bool)
    ensures
        r == has_prefix(s@, p@),
{
    let n = s.unicode_len();
    let m = p.unicode_len();
    if m > n {
        return false;
    }
    let mut i: usize = 0;
    while i < m
        invariant
            n == s@.len(),
            m == p@.len(),
            m <= n,
            i <= m,
            forall|k: int| 0 <= k < i ==> s@[k] == p@[k],
        decreases m - i,
    {
        if s.get_char(i) != p.get_char(i) {
            assert(s@.subrange(0, m as int)[i as int] != p@[i as int]);
            return false;
        }
        i = i + 1;
    }
    assert(s@.subrange(0, m as int) =~= p@);
    true
}


/// Byte-lexicographic order, the order of `str` comparison.
pub open spec fn bytes_lt(a: Seq<u8>, b: Seq<u8>) -> bool
    decreases a.len(),
{
    if a.len() == 0 {
        b.len() > 0
    } else if b.len() == 0 {
        false
    } else if a[0] != b[0] {
        a[0] < b[0]
    } else {
        bytes_lt(a.drop_first(), b.drop_first())
    }
}

pub proof fn lemma_bytes_lt_irreflexive(a: Seq<u8>)
    ensures
        !bytes_lt(a, a),
    decreases a.len(),
{
    if a.len() > 0 {
        lemma_bytes_lt_irreflexive(a.drop_first());
    }
}

pub proof fn lemma_bytes_lt_transitive(a: Seq<u8>, b: Seq<u8>, c: Seq<u8>)
    requires
        bytes_lt(a, b),
        bytes_lt(b, c),
    ensures
        bytes_lt(a, c),
    decreases a.len(),
{
    if a.len() > 0 && b.len() > 0 && c.len() > 0 && a[0] == b[0] && b[0] == c[0] {
        lemma_bytes_lt_transitive(a.drop_first(), b.drop_first(), c.drop_first());
    }
}

pub proof fn lemma_bytes_lt_total(a: Seq<u8>, b: Seq<u8>)
    ensures
        a =~= b || bytes_lt(a, b) || bytes_lt(b, a),
    decreases a.len(),
{
    if a.len() > 0 && b.len() > 0 && a[0] == b[0] {
        lemma_bytes_lt_total(a.drop_first(), b.drop_first());
        if a.drop_first() =~= b.drop_first() {
            assert(a =~= seq![a[0]] + a.drop_first());
            assert(b =~= seq![b[0]] + b.drop_first());
        }
    }
}

/// Whether `a` sorts strictly before `b` by bytes.
pub fn bytes_less(a: &[u8], b: &[u8]) -> (r: bool)
    ensures
        r == bytes_lt(a@, b@),
{
    let mut i: usize = 0;
    assert(a@.subrange(0, a@.len() as int) =~= a@);
    assert(b@.subrange(0, b@.len() as int) =~= b@);
    while i < a.len() && i < b.len() && a[i] == b[i]
        invariant
            i <= a@.len(),
            i <= b@.len(),
            bytes_lt(a@, b@) == bytes_lt(a@.subrange(i as int, a@.len() as int), b@.subrange(i as int, b@.len() as int)),
        decreases a@.len() - i,
    {
        assert(a@.subrange(i as int, a@.len() as int).drop_first() =~= a@.subrange(i + 1, a@.len() as int));
        assert(b@.subrange(i as int, b@.len() as int).drop_first() =~= b@.subrange(i + 1, b@.len() as int));
        i = i + 1;
    }
    if i == a.len() {
        i < b.len()
    } else if i == b.len() {
        false
    } else {
        a[i] < b[i]
    }
}

/// Whether two byte strings are equal.
pub fn bytes_equal(a: &[u8], b: &[u8]) -> (r: bool)
    ensures
        r == (a@ == b@),
{
    if a.len() != b.len() {
        return false;
    }
    let mut i: usize = 0;
    while i < a.len()
        invariant
            a@.len() == b@.len(),
            i <= a@.len(),
            forall|k: int| 0 <= k < i ==> a@[k] == b@[k],
        decreases a@.len() - i,
    {
        if a[i] != b[i] {
            return false;
        }
        i = i + 1;
    }
    assert(a@ =~= b@);
    true
}


/// ASCII whitespace as `char::is_whitespace` sees it: tab, line feed,
/// vertical tab, form feed, carriage return and space.
pub open spec fn is_space(b: u8) -> bool {
    (0x09 <= b <= 0x0d) || b == 0x20
}

pub open spec fn is_blank(s: Seq<u8>) -> bool {
    forall|i: int| 0 <= i < s.len() ==> is_space(#[trigger] s[i])
}

/// Whether a line holds nothing but whitespace.
pub fn blank(s: &[u8]) -> (r: bool)
    ensures
        r == is_blank(s@),
{
    let mut i: usize = 0;
    while i < s.len()
        invariant
            i <= s@.len(),
            forall|k: int| 0 <= k < i ==> is_space(#[trigger] s@[k]),
        decreases s@.len() - i,
    {
        let b = s[i];
        if !((0x09 <= b && b <= 0x0d) || b == 0x20) {
            assert(!is_space(s@[i as int]));
            return false;
        }
        i = i + 1;
    }
    true
}

/// The bytes of `s` from `r.0` up to `r.1`.
pub open spec fn range_bytes(s: Seq<u8>, r: (usize, usize)) -> Seq<u8> {
    s.subrange(r.0 as int, r.1 as int)
}

pub open spec fn ranges_bytes(s: Seq<u8>, rs: Seq<(usize, usize)>) -> Seq<Seq<u8>> {
    rs.map_values(|r: (usize, usize)| range_bytes(s, r))
}

pub open spec fn ranges_within(s: Seq<u8>, rs: Seq<(usize, usize)>) -> bool {
    forall|k: int| 0 <= k < rs.len() ==> #[trigger] rs[k].0 <= rs[k].1 <= s.len()
}

/// Reading `s` byte by byte: the whitespace-separated tokens completed so
/// far and the token being read.
pub open spec fn tokens_state(s: Seq<u8>) -> (Seq<Seq<u8>>, Seq<u8>)
    decreases s.len(),
{
    if s.len() == 0 {
        (seq![], seq![])
    } else {
        let (done, current) = tokens_state(s.drop_last());
        if is_space(s.last()) {
            if current.len() > 0 {
                (done.push(current), seq![])
            } else {
                (done, seq![])
            }
        } else {
            (done, current.push(s.last()))
        }
    }
}

/// The whitespace-separated tokens of `s`, as `str::split_whitespace`
/// yields them.
pub open spec fn tokens(s: Seq<u8>) -> Seq<Seq<u8>> {
    let (done, current) = tokens_state(s);
    if current.len() > 0 {
        done.push(current)
    } else {
        done
    }
}

/// The ranges of the whitespace-separated tokens of `s`.
pub fn split_tokens(s: &[u8]) -> (r: Vec<(usize, usize)>)
    ensures
        ranges_within(s@, r@),
        ranges_bytes(s@, r@) == tokens(s@),
{
    let mut ranges: Vec<(usize, usize)> = Vec::new();
    let mut start: usize = 0;
    let mut i: usize = 0;
    while i < s.len()
        invariant
            start <= i <= s@.len(),
            ranges_within(s@, ranges@),
            tokens_state(s@.take(i as int)) == (
                ranges_bytes(s@, ranges@),
                s@.subrange(start as int, i as int),
            ),
        decreases s@.len() - i,
    {
        assert(s@.take(i + 1).drop_last() =~= s@.take(i as int));
        assert(s@.take(i + 1).last() == s@[i as int]);
        let b = s[i];
        if (0x09 <= b && b <= 0x0d) || b == 0x20 {
            if start < i {
                let ghost before = ranges@;
                ranges.push((start, i));
                assert(ranges_bytes(s@, ranges@) =~= ranges_bytes(s@, before).push(
                    s@.subrange(start as int, i as int),
                ));
            }
            start = i + 1;
            assert(s@.subrange(start as int, i + 1) =~= Seq::<u8>::empty());
        } else {
            assert(s@.subrange(start as int, i + 1) =~= s@.subrange(start as int, i as int).push(b));
        }
        i = i + 1;
    }
    assert(s@.take(s@.len() as int) =~= s@);
    if start < s.len() {
        let ghost before = ranges@;
        ranges.push((start, s.len()));
        assert(ranges_bytes(s@, ranges@) =~= ranges_bytes(s@, before).push(
            s@.subrange(start as int, s@.len() as int),
        ));
    }
    ranges
}

/// A line completed by a line feed loses one carriage return before it.
pub open spec fn strip_cr(line: Seq<u8>) -> Seq<u8> {
    if line.len() > 0 && line.last() == 0x0d {
        line.drop_last()
    } else {
        line
    }
}

/// Reading `s` byte by byte: the lines completed so far and the line
/// being read.
pub open spec fn lines_state(s: Seq<u8>) -> (Seq<Seq<u8>>, Seq<u8>)
    decreases s.len(),
{
    if s.len() == 0 {
        (seq![], seq![])
    } else {
        let (done, current) = lines_state(s.drop_last());
        if s.last() == 0x0a {
            (done.push(strip_cr(current)), seq![])
        } else {
            (done, current.push(s.last()))
        }
    }
}

/// The lines of `s` as `str::lines` yields them: split at line feeds, a
/// carriage return before a line feed dropped, the final line ending
/// optional.
pub open spec fn text_lines(s: Seq<u8>) -> Seq<Seq<u8>> {
    let (done, current) = lines_state(s);
    if current.len() > 0 {
        done.push(current)
    } else {
        done
    }
}

/// The ranges of the lines of `s`.
pub fn split_lines(s: &[u8]) -> (r: Vec<(usize, usize)>)
    ensures
        ranges_within(s@, r@),
        ranges_bytes(s@, r@) == text_lines(s@),
{
    let mut ranges: Vec<(usize, usize)> = Vec::new();
    let mut start: usize = 0;
    let mut i: usize = 0;
    while i < s.len()
        invariant
            start <= i <= s@.len(),
            ranges_within(s@, ranges@),
            lines_state(s@.take(i as int)) == (
                ranges_bytes(s@, ranges@),
                s@.subrange(start as int, i as int),
            ),
        decreases s@.len() - i,
    {
        assert(s@.take(i + 1).drop_last() =~= s@.take(i as int));
        assert(s@.take(i + 1).last() == s@[i as int]);
        let b = s[i];
        if b == 0x0a {
            let end: usize = if start < i && s[i - 1] == 0x0d {
                i - 1
            } else {
                i
            };
            let ghost current = s@.subrange(start as int, i as int);
            assert(strip_cr(current) =~= s@.subrange(start as int, end as int));
            let ghost before = ranges@;
            ranges.push((start, end));
            assert(ranges_bytes(s@, ranges@) =~= ranges_bytes(s@, before).push(strip_cr(current)));
            start = i + 1;
            assert(s@.subrange(start as int, i + 1) =~= Seq::<u8>::empty());
        } else {
            assert(s@.subrange(start as int, i + 1) =~= s@.subrange(start as int, i as int).push(b));
        }
        i = i + 1;
    }
    assert(s@.take(s@.len() as int) =~= s@);
    if start < s.len() {
        let ghost before = ranges@;
        ranges.push((start, s.len()));
        assert(ranges_bytes(s@, ranges@) =~= ranges_bytes(s@, before).push(
            s@.subrange(start as int, s@.len() as int),
        ));
    }
    ranges
}

pub open spec fn is_digit(b: u8) -> bool {
    0x30 <= b <= 0x39
}

/// The value of a string of decimal digits.
pub open spec fn digits_value(s: Seq<u8>) -> nat
    decreases s.len(),
{
    if s.len() == 0 {
        0
    } else {
        digits_value(s.drop_last()) * 10 + (s.last() - 0x30) as nat
    }
}

/// The digits of an unsigned number token: an optional `+` sign removed.
pub open spec fn unsigned_digits(s: Seq<u8>) -> Seq<u8> {
    if s.len() > 0 && s[0] == 0x2b {
        s.drop_first()
    } else {
        s
    }
}

/// Whether a token is an unsigned decimal number as `str::parse` accepts
/// it: an optional `+`, then at least one ASCII digit and nothing else.
pub open spec fn is_unsigned_token(s: Seq<u8>) -> bool {
    unsigned_digits(s).len() > 0 && forall|i: int|
        0 <= i < unsigned_digits(s).len() ==> is_digit(#[trigger] unsigned_digits(s)[i])
}

/// The value of an unsigned token, when it is one and does not exceed
/// `max`: what `str::parse` gives for an unsigned type whose largest value
/// is `max`.
pub open spec fn unsigned_value(s: Seq<u8>, max: nat) -> Option<nat> {
    if is_unsigned_token(s) && digits_value(unsigned_digits(s)) <= max {
        Some(digits_value(unsigned_digits(s)))
    } else {
        None
    }
}

proof fn lemma_digits_prefix(s: Seq<u8>, i: int)
    requires
        0 <= i <= s.len(),
        forall|k: int| 0 <= k < s.len() ==> is_digit(#[trigger] s[k]),
    ensures
        digits_value(s.take(i)) <= digits_value(s),
    decreases s.len() - i,
{
    if i < s.len() {
        lemma_digits_prefix(s, i + 1);
        assert(s.take(i + 1).drop_last() =~= s.take(i));
    } else {
        assert(s.take(i) =~= s);
    }
}

/// Parses an unsigned decimal token no greater than `max`.
pub fn parse_unsigned(s: &[u8], max: u64) -> (r: Option<u64>)
    ensures
        match unsigned_value(s@, max as nat) {
            Some(v) => r == Some(v as u64),
            None => r is None,
        },
{
    let mut i: usize = 0;
    if s.len() > 0 && s[0] == 0x2b {
        i = 1;
    }
    let first = i;
    let ghost d = unsigned_digits(s@);
    assert(d =~= s@.subrange(first as int, s@.len() as int));
    if i == s.len() {
        return None;
    }
    let mut value: u64 = 0;
    while i < s.len()
        invariant
            first <= i <= s@.len(),
            d == unsigned_digits(s@),
            d =~= s@.subrange(first as int, s@.len() as int),
            forall|k: int| 0 <= k < i - first ==> is_digit(#[trigger] d[k]),
            value == digits_value(d.take(i - first)),
            value <= max,
        decreases s@.len() - i,
    {
        let b = s[i];
        if !(0x30 <= b && b <= 0x39) {
            assert(!is_digit(d[i - first]));
            return None;
        }
        assert(d.take(i - first + 1).drop_last() =~= d.take(i - first));
        let digit = (b - 0x30) as u64;
        if value > max / 10 || (value == max / 10 && digit > max % 10) {
            proof {
                assert(value * 10 + digit > max) by (nonlinear_arith)
                    requires
                        value > max / 10 || (value == max / 10 && digit > max % 10),
                ;
                if is_unsigned_token(s@) {
                    lemma_digits_prefix(d, i - first + 1);
                }
            }
            return None;
        }
        assert(value * 10 + digit <= max) by (nonlinear_arith)
            requires
                !(value > max / 10 || (value == max / 10 && digit > max % 10)),
                digit <= 9,
        ;
        value = value * 10 + digit;
        i = i + 1;
    }
    assert(d.take(d.len() as int) =~= d);
    Some(value)
}

/// The decimal digits of `n`.
pub open spec fn decimal_chars(n: nat) -> Seq<char>
    decreases n,
{
    if n < 10 {
        seq![(n + 0x30) as char]
    } else {
        decimal_chars(n / 10).push(((n % 10) + 0x30) as char)
    }
}

/// The text of one decimal digit.
fn digit_text(d: u64) -> (t: &'static str)
    requires
        d < 10,
    ensures
        t@ == seq![(d + 0x30) as char],
{
    proof {
        reveal_strlit("0");
        reveal_strlit("1");
        reveal_strlit("2");
        reveal_strlit("3");
        reveal_strlit("4");
        reveal_strlit("5");
        reveal_strlit("6");
        reveal_strlit("7");
        reveal_strlit("8");
        reveal_strlit("9");
    }
    if d == 0 {
        "0"
    } else if d == 1 {
        "1"
    } else if d == 2 {
        "2"
    } else if d == 3 {
        "3"
    } else if d == 4 {
        "4"
    } else if d == 5 {
        "5"
    } else if d == 6 {
        "6"
    } else if d == 7 {
        "7"
    } else if d == 8 {
        "8"
    } else {
        "9"
    }
}

/// `n` written in decimal.
pub fn decimal_text(n: u64) -> (t: String)
    ensures
        t@ == decimal_chars(n as nat),
    decreases n,
{
    if n < 10 {
        String::from_str(digit_text(n))
    } else {
        let mut t = decimal_text(n / 10);
        t.append(digit_text(n % 10));
        t
    }
}

/// Whether two strings hold the same characters.
pub fn same_text(a: &str, b: &str) -> (r: bool)
    ensures
        r == (a@ == b@),
{
    let n = a.unicode_len();
    if n != b.unicode_len() {
        return false;
    }
    let mut i: usize = 0;
    while i < n
        invariant
            n == a@.len(),
            n == b@.len(),
            i <= n,
            forall|k: int| 0 <= k < i ==> a@[k] == b@[k],
        decreases n - i,
    {
        if a.get_char(i) != b.get_char(i) {
            return false;
        }
        i = i + 1;
    }
    assert(a@ =~= b@);
    true
}

} // verus!
