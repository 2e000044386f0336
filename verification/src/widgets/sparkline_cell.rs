//! One-line history sparklines.
use vstd::prelude::*;

verus! {

/// The eight block heights, lowest first.
pub open spec fn block_char(level: nat) -> char {
    if level == 0 {
        '▁'
    } else if level == 1 {
        '▂'
    } else if level == 2 {
        '▃'
    } else if level == 3 {
        '▄'
    } else if level == 4 {
        '▅'
    } else if level == 5 {
        '▆'
    } else if level == 6 {
        '▇'
    } else {
        '█'
    }
}

/// The largest value of a history.
pub open spec fn seq_max(s: Seq<u64>) -> u64
    decreases s.len(),
{
    if s.len() == 0 {
        0
    } else if s.last() > seq_max(s.drop_last()) {
        s.last()
    } else {
        seq_max(s.drop_last())
    }
}

/// The block level of `value` against the scale `max`: `7 * value / max`
/// rounded to the nearest level, halves up, at most 7.
pub open spec fn block_level(value: u64, max: u64) -> nat {
    let level = ((14 * value + max) / (2 * max)) as nat;
    if level > 7 {
        7
    } else {
        level
    }
}

/// The sparkline of the last `width` values of `history`, right-aligned
/// and padded with spaces; all spaces for an empty history.
pub open spec fn sparkline_text(history: Seq<u64>, width: nat) -> Seq<char> {
    if history.len() == 0 || width == 0 {
        Seq::new(width, |i: int| ' ')
    } else {
        let max = if seq_max(history) == 0 {
            1
        } else {
            seq_max(history)
        };
        let samples = if history.len() >= width {
            history.subrange(history.len() - width, history.len() as int)
        } else {
            history
        };
        Seq::new((width - samples.len()) as nat, |i: int| ' ') + samples.map_values(
            |v: u64| block_char(block_level(v, max)),
        )
    }
}

fn block_text(level: u64) -> (t: &'static str)
    requires
        level <= 7,
    ensures
        t@ == seq![block_char(level as nat)],
{
    proof {
        reveal_strlit("▁");
        reveal_strlit("▂");
        reveal_strlit("▃");
        reveal_strlit("▄");
        reveal_strlit("▅");
        reveal_strlit("▆");
        reveal_strlit("▇");
        reveal_strlit("█");
    }
    if level == 0 {
        "▁"
    } else if level == 1 {
        "▂"
    } else if level == 2 {
        "▃"
    } else if level == 3 {
        "▄"
    } else if level == 4 {
        "▅"
    } else if level == 5 {
        "▆"
    } else if level == 6 {
        "▇"
    } else {
        "█"
    }
}

fn spaces(n: usize) -> (s: String)
    ensures
        s@ == Seq::new(n as nat, |i: int| ' '),
{
    proof {
        reveal_strlit(" ");
    }
    let mut s = String::new();
    let mut i: usize = 0;
    while i < n
        invariant
            i <= n,
            s@ == Seq::new(i as nat, |k: int| ' '),
        decreases n - i,
    {
        proof {
            reveal_strlit(" ");
        }
        s.append(" ");
        assert(s@ =~= Seq::new((i + 1) as nat, |k: int| ' '));
        i = i + 1;
    }
    s
}

/// Renders `history` as a sparkline `width` characters wide.
pub fn sparkline(history: &[u64], width: usize) -> (s: String)
    ensures
        s@ == sparkline_text(history@, width as nat),
{
    if history.len() == 0 || width == 0 {
        return spaces(width);
    }
    let mut max: u64 = 0;
    let mut i: usize = 0;
    while i < history.len()
        invariant
            i <= history@.len(),
            max == seq_max(history@.take(i as int)),
        decreases history@.len() - i,
    {
        assert(history@.take(i + 1).drop_last() =~= history@.take(i as int));
        if history[i] > max {
            max = history[i];
        }
        i = i + 1;
    }
    assert(history@.take(history@.len() as int) =~= history@);
    let scale: u64 = if max == 0 {
        1
    } else {
        max
    };
    let first: usize = if history.len() >= width {
        history.len() - width
    } else {
        0
    };
    let ghost samples = history@.subrange(first as int, history@.len() as int);
    assert(history.len() < width ==> samples =~= history@);
    let padding = width - (history.len() - first);
    let mut s = spaces(padding);
    let ghost pad = s@;
    let mut j: usize = first;
    while j < history.len()
        invariant
            first <= j <= history@.len(),
            scale >= 1,
            samples == history@.subrange(first as int, history@.len() as int),
            s@ == pad + samples.take(j - first).map_values(|v: u64| block_char(block_level(v, scale))),
        decreases history@.len() - j,
    {
        let v = history[j];
        let level_wide: u128 = (14 * v as u128 + scale as u128) / (2 * scale as u128);
        let level: u64 = if level_wide > 7 {
            7
        } else {
            level_wide as u64
        };
        assert(level as nat == block_level(v, scale));
        s.append(block_text(level));
        assert(samples.take(j + 1 - first) =~= samples.take(j - first).push(v));
        assert(s@ =~= pad + samples.take(j + 1 - first).map_values(|v: u64| block_char(block_level(v, scale))));
        j = j + 1;
    }
    assert(samples.take(history@.len() - first) =~= samples);
    s
}

/// A sparkline is always exactly `width` characters; a sample equal to the
/// history's largest is a full block, and a zero sample the lowest block.
pub proof fn lemma_sparkline_shape(history: Seq<u64>, width: nat, max: u64)
    requires
        max > 0,
    ensures
        sparkline_text(history, width).len() == width,
        block_level(max, max) == 7,
        block_level(0, max) == 0,
{
    assert((14 * max + max) / (2 * max) == 7) by (nonlinear_arith)
        requires
            max > 0,
    ;
    assert((14 * 0 + max) / (2 * max) == 0) by (nonlinear_arith)
        requires
            max > 0,
    ;
}

} // verus!
