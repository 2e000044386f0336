//! Lines and words of text, character by character, as `str::lines` and
//! `str::split_whitespace` give them.
use vstd::prelude::*;

use crate::collectors::md_sysfs::{is_white, white};

verus! {

/// A line completed by a line feed loses one carriage return before it.
pub open spec fn strip_cr_char(line: Seq<char>) -> Seq<char> {
    if line.len() > 0 && line.last() == '\r' {
        line.drop_last()
    } else {
        line
    }
}

/// Reading `s`: the lines completed so far and the line being read.
pub open spec fn char_lines_state(s: Seq<char>) -> (Seq<Seq<char>>, Seq<char>)
    decreases s.len(),
{
    if s.len() == 0 {
        (seq![], seq![])
    } else {
        let (done, current) = char_lines_state(s.drop_last());
        if s.last() == '\n' {
            (done.push(strip_cr_char(current)), seq![])
        } else {
            (done, current.push(s.last()))
        }
    }
}

/// The lines of `s` as `str::lines` yields them.
pub open spec fn char_lines(s: Seq<char>) -> Seq<Seq<char>> {
    let (done, current) = char_lines_state(s);
    if current.len() > 0 {
        done.push(current)
    } else {
        done
    }
}

/// Reading `s`: the words completed so far and the word being read.
pub open spec fn words_state(s: Seq<char>) -> (Seq<Seq<char>>, Seq<char>)
    decreases s.len(),
{
    if s.len() == 0 {
        (seq![], seq![])
    } else {
        let (done, current) = words_state(s.drop_last());
        if is_white(s.last()) {
            if current.len() > 0 {
                (done.push(current), seq![])
            } else {
                (done, seq![])
            }
        } else {
            (done, current.push(s.last()))
        }
    }
}

/// The words of `s` as `str::split_whitespace` yields them.
pub open spec fn words(s: Seq<char>) -> Seq<Seq<char>> {
    let (done, current) = words_state(s);
    if current.len() > 0 {
        done.push(current)
    } else {
        done
    }
}

pub open spec fn char_ranges(s: Seq<char>, rs: Seq<(usize, usize)>) -> Seq<Seq<char>> {
    rs.map_values(|r: (usize, usize)| s.subrange(r.0 as int, r.1 as int))
}

pub open spec fn char_ranges_within(s: Seq<char>, rs: Seq<(usize, usize)>) -> bool {
    forall|k: int| 0 <= k < rs.len() ==> #[trigger] rs[k].0 <= rs[k].1 <= s.len()
}

/// The character ranges of the lines of `t`.
pub fn split_char_lines(t: &str) -> (r: Vec<(usize, usize)>)
    ensures
        char_ranges_within(t@, r@),
        char_ranges(t@, r@) == char_lines(t@),
{
    let n = t.unicode_len();
    let mut ranges: Vec<(usize, usize)> = Vec::new();
    let mut start: usize = 0;
    let mut i: usize = 0;
    while i < n
        invariant
            n == t@.len(),
            start <= i <= n,
            char_ranges_within(t@, ranges@),
            char_lines_state(t@.take(i as int)) == (
                char_ranges(t@, ranges@),
                t@.subrange(start as int, i as int),
            ),
        decreases n - i,
    {
        assert(t@.take(i + 1).drop_last() =~= t@.take(i as int));
        assert(t@.take(i + 1).last() == t@[i as int]);
        let c = t.get_char(i);
        if c == '\n' {
            let end: usize = if start < i && t.get_char(i - 1) == '\r' {
                i - 1
            } else {
                i
            };
            let ghost current = t@.subrange(start as int, i as int);
            assert(strip_cr_char(current) =~= t@.subrange(start as int, end as int));
            let ghost before = ranges@;
            ranges.push((start, end));
            assert(char_ranges(t@, ranges@) =~= char_ranges(t@, before).push(strip_cr_char(current)));
            start = i + 1;
            assert(t@.subrange(start as int, i + 1) =~= Seq::<char>::empty());
        } else {
            assert(t@.subrange(start as int, i + 1) =~= t@.subrange(start as int, i as int).push(c));
        }
        i = i + 1;
    }
    assert(t@.take(n as int) =~= t@);
    if start < n {
        let ghost before = ranges@;
        ranges.push((start, n));
        assert(char_ranges(t@, ranges@) =~= char_ranges(t@, before).push(t@.subrange(start as int, n as int)));
    }
    ranges
}

/// The character ranges of the words of `t`.
pub fn split_words(t: &str) -> (r: Vec<(usize, usize)>)
    ensures
        char_ranges_within(t@, r@),
        char_ranges(t@, r@) == words(t@),
{
    let n = t.unicode_len();
    let mut ranges: Vec<(usize, usize)> = Vec::new();
    let mut start: usize = 0;
    let mut i: usize = 0;
    while i < n
        invariant
            n == t@.len(),
            start <= i <= n,
            char_ranges_within(t@, ranges@),
            words_state(t@.take(i as int)) == (char_ranges(t@, ranges@), t@.subrange(start as int, i as int)),
        decreases n - i,
    {
        assert(t@.take(i + 1).drop_last() =~= t@.take(i as int));
        assert(t@.take(i + 1).last() == t@[i as int]);
        let c = t.get_char(i);
        if white(c) {
            if start < i {
                let ghost before = ranges@;
                ranges.push((start, i));
                assert(char_ranges(t@, ranges@) =~= char_ranges(t@, before).push(
                    t@.subrange(start as int, i as int),
                ));
            }
            start = i + 1;
            assert(t@.subrange(start as int, i + 1) =~= Seq::<char>::empty());
        } else {
            assert(t@.subrange(start as int, i + 1) =~= t@.subrange(start as int, i as int).push(c));
        }
        i = i + 1;
    }
    assert(t@.take(n as int) =~= t@);
    if start < n {
        let ghost before = ranges@;
        ranges.push((start, n));
        assert(char_ranges(t@, ranges@) =~= char_ranges(t@, before).push(t@.subrange(start as int, n as int)));
    }
    ranges
}

} // verus!
