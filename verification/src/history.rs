//! The bounded sample histories behind the dashboard's graphs: one series
//! of the last `HISTORY_SIZE` samples per device or array name.
use vstd::prelude::*;

use crate::monitor::{RaidState, RaidSummary, HISTORY_SIZE};
use crate::text::same_text;

verus! {

/// The samples of one device or array, oldest first.
#[derive(Debug, Clone)]
pub struct NamedSeries {
    pub name: String,
    pub values: Vec<u64>,
}

/// Sample series keyed by name.
#[derive(Debug, Clone)]
pub struct SeriesHistory {
    pub series: Vec<NamedSeries>,
}

/// `s` with its oldest sample dropped once it holds more than
/// `HISTORY_SIZE` samples.
pub open spec fn bounded(s: Seq<u64>) -> Seq<u64> {
    if s.len() > HISTORY_SIZE {
        s.drop_first()
    } else {
        s
    }
}

pub open spec fn unique_names(s: Seq<NamedSeries>) -> bool {
    forall|i: int, j: int| 0 <= i < j < s.len() ==> #[trigger] s[i].name@ != #[trigger] s[j].name@
}

/// The series as a map from name to samples.
pub open spec fn series_map(s: Seq<NamedSeries>) -> Map<Seq<char>, Seq<u64>>
    decreases s.len(),
{
    if s.len() == 0 {
        Map::empty()
    } else {
        series_map(s.drop_last()).insert(s.last().name@, s.last().values@)
    }
}

/// Whether some name of `names` is `k`.
pub open spec fn names_contain(names: Seq<String>, k: Seq<char>) -> bool {
    exists|j: int| 0 <= j < names.len() && #[trigger] names[j]@ == k
}

/// Whether some sample of `s` is above zero.
pub open spec fn has_positive(s: Seq<u64>) -> bool {
    exists|j: int| 0 <= j < s.len() && #[trigger] s[j] > 0
}

/// The map after one speed sample of array `name`: its series, started
/// empty when new, gets the sample.
pub open spec fn with_sample(m: Map<Seq<char>, Seq<u64>>, name: Seq<char>, v: u64) -> Map<Seq<char>, Seq<u64>> {
    m.insert(
        name,
        bounded(
            (if m.dom().contains(name) {
                m[name]
            } else {
                Seq::<u64>::empty()
            }).push(v),
        ),
    )
}

/// The map after the speed samples of `speeds`, in order.
pub open spec fn with_samples(m: Map<Seq<char>, Seq<u64>>, speeds: Seq<(String, u64)>) -> Map<Seq<char>, Seq<u64>>
    decreases speeds.len(),
{
    if speeds.len() == 0 {
        m
    } else {
        with_sample(with_samples(m, speeds.drop_last()), speeds.last().0@, speeds.last().1)
    }
}

/// Whether some array of `speeds` is named `k`.
pub open spec fn speeds_contain(speeds: Seq<(String, u64)>, k: Seq<char>) -> bool {
    exists|j: int| 0 <= j < speeds.len() && #[trigger] speeds[j].0@ == k
}

/// The series of `k` after an update with `speeds`: a series of an array
/// that is no longer reported gets a zero sample.
pub open spec fn after_update(m: Map<Seq<char>, Seq<u64>>, speeds: Seq<(String, u64)>, k: Seq<char>) -> Seq<u64> {
    let sampled = with_samples(m, speeds);
    if speeds_contain(speeds, k) {
        sampled[k]
    } else {
        bounded(sampled[k].push(0))
    }
}

/// Whether the series of `k` is kept after an update with `speeds`: arrays
/// that are reported stay, the others until their samples have drained to
/// zeros.
pub open spec fn kept_after_update(m: Map<Seq<char>, Seq<u64>>, speeds: Seq<(String, u64)>, k: Seq<char>) -> bool {
    with_samples(m, speeds).dom().contains(k) && (speeds_contain(speeds, k) || has_positive(
        after_update(m, speeds, k),
    ))
}

impl SeriesHistory {
    /// Names are unique and no series is longer than `HISTORY_SIZE`.
    pub open spec fn wf(&self) -> bool {
        &&& unique_names(self.series@)
        &&& forall|i: int| 0 <= i < self.series@.len() ==> #[trigger] self.series@[i].values@.len() <= HISTORY_SIZE
    }
}

impl View for SeriesHistory {
    type V = Map<Seq<char>, Seq<u64>>;

    open spec fn view(&self) -> Map<Seq<char>, Seq<u64>> {
        series_map(self.series@)
    }
}

/// With unique names, the map holds exactly the names of the series, each
/// with its own samples.
pub proof fn lemma_series_map(s: Seq<NamedSeries>)
    requires
        unique_names(s),
    ensures
        forall|i: int|
            0 <= i < s.len() ==> #[trigger] series_map(s).dom().contains(s[i].name@) && series_map(
                s,
            )[s[i].name@] == s[i].values@,
        forall|k: Seq<char>|
            #[trigger] series_map(s).dom().contains(k) ==> exists|i: int| 0 <= i < s.len() && s[i].name@ == k,
    decreases s.len(),
{
    if s.len() > 0 {
        let t = s.drop_last();
        assert(series_map(s) == series_map(t).insert(s.last().name@, s.last().values@));
        assert(s.last() == s[s.len() - 1]);
        assert forall|i: int, j: int| 0 <= i < j < t.len() implies #[trigger] t[i].name@ != #[trigger] t[j].name@ by {
            assert(s[i] == t[i] && s[j] == t[j]);
        }
        lemma_series_map(t);
        assert forall|i: int| 0 <= i < s.len() implies #[trigger] series_map(s).dom().contains(s[i].name@)
            && series_map(s)[s[i].name@] == s[i].values@ by {
            if i < s.len() - 1 {
                assert(t[i] == s[i]);
                assert(s[i].name@ != s[s.len() - 1].name@);
            }
        }
        assert forall|k: Seq<char>| #[trigger] series_map(s).dom().contains(k) implies exists|i: int|
            0 <= i < s.len() && s[i].name@ == k by {
            if k != s.last().name@ {
                assert(series_map(t).dom().contains(k));
                let i = choose|i: int| 0 <= i < t.len() && t[i].name@ == k;
                assert(s[i] == t[i]);
            } else {
                assert(s[s.len() - 1].name@ == k);
            }
        }
    }
}

/// Two series lists with unique names and the same names and samples, as
/// given by `expected`, have the map `expected`.
proof fn lemma_map_is(s: Seq<NamedSeries>, expected: Map<Seq<char>, Seq<u64>>)
    requires
        unique_names(s),
        forall|i: int|
            0 <= i < s.len() ==> #[trigger] expected.dom().contains(s[i].name@) && expected[s[i].name@]
                == s[i].values@,
        forall|k: Seq<char>|
            #[trigger] expected.dom().contains(k) ==> exists|i: int| 0 <= i < s.len() && s[i].name@ == k,
    ensures
        series_map(s) == expected,
{
    lemma_series_map(s);
    assert forall|k: Seq<char>| #[trigger] series_map(s).dom().contains(k) <==> expected.dom().contains(k) by {
        if series_map(s).dom().contains(k) {
            let i = choose|i: int| 0 <= i < s.len() && s[i].name@ == k;
            assert(expected.dom().contains(s[i].name@));
        }
        if expected.dom().contains(k) {
            let i = choose|i: int| 0 <= i < s.len() && s[i].name@ == k;
            assert(series_map(s).dom().contains(s[i].name@));
        }
    }
    assert forall|k: Seq<char>| #[trigger] series_map(s).dom().contains(k) implies series_map(s)[k] == expected[k] by {
        let i = choose|i: int| 0 <= i < s.len() && s[i].name@ == k;
        assert(series_map(s)[s[i].name@] == s[i].values@);
    }
    assert(series_map(s) =~= expected);
}

/// Appends `value` to `values`, dropping the oldest sample once more than
/// `HISTORY_SIZE` are held.
pub fn push_bounded(values: &mut Vec<u64>, value: u64)
    ensures
        final(values)@ == bounded(old(values)@.push(value)),
{
    values.push(value);
    if values.len() > HISTORY_SIZE {
        values.remove(0);
        assert(final(values)@ =~= old(values)@.push(value).drop_first());
    }
}

fn copy_values(v: &Vec<u64>) -> (r: Vec<u64>)
    ensures
        r@ == v@,
{
    let mut r: Vec<u64> = Vec::new();
    let mut i: usize = 0;
    while i < v.len()
        invariant
            i <= v@.len(),
            r@ == v@.subrange(0, i as int),
        decreases v@.len() - i,
    {
        r.push(v[i]);
        i = i + 1;
        assert(r@ =~= v@.subrange(0, i as int));
    }
    assert(v@.subrange(0, v@.len() as int) =~= v@);
    r
}

/// Whether `names` holds `name`.
pub fn contains_name(names: &[String], name: &str) -> (r: bool)
    ensures
        r == names_contain(names@, name@),
{
    let mut j: usize = 0;
    while j < names.len()
        invariant
            j <= names@.len(),
            forall|m: int| 0 <= m < j ==> names@[m]@ != name@,
        decreases names@.len() - j,
    {
        if same_text(names[j].as_str(), name) {
            return true;
        }
        j = j + 1;
    }
    false
}

impl SeriesHistory {
    /// An empty series for each name; a repeated name gets one series.
    pub fn for_names(names: &[String]) -> (h: Self)
        ensures
            h.wf(),
            forall|k: Seq<char>| #[trigger] h@.dom().contains(k) <==> names_contain(names@, k),
            forall|k: Seq<char>| #[trigger] h@.dom().contains(k) ==> h@[k] == Seq::<u64>::empty(),
    {
        let mut h = SeriesHistory { series: Vec::new() };
        let mut j: usize = 0;
        while j < names.len()
            invariant
                j <= names@.len(),
                h.wf(),
                forall|i: int| 0 <= i < h.series@.len() ==> #[trigger] h.series@[i].values@.len() == 0,
                forall|i: int|
                    0 <= i < h.series@.len() ==> names_contain(names@.subrange(0, j as int), #[trigger] h.series@[i].name@),
                forall|m: int|
                    #![trigger names@[m]]
                    0 <= m < j ==> exists|i: int| 0 <= i < h.series@.len() && #[trigger] h.series@[i].name@ == names@[m]@,
            decreases names@.len() - j,
        {
            let found = h.index_of(names[j].as_str());
            if found.is_none() {
                let e = NamedSeries { name: names[j].clone(), values: Vec::new() };
                let ghost before = h.series@;
                h.series.push(e);
                assert(h.series@ == before.push(e));
                assert forall|i: int| 0 <= i < h.series@.len() implies names_contain(
                    names@.subrange(0, j + 1),
                    #[trigger] h.series@[i].name@,
                ) by {
                    if i < before.len() {
                        assert(names_contain(names@.subrange(0, j as int), before[i].name@));
                        let m = choose|m: int| 0 <= m < j && #[trigger] names@.subrange(0, j as int)[m]@ == before[i].name@;
                        assert(names@.subrange(0, j + 1)[m] == names@[m]);
                    } else {
                        assert(names@.subrange(0, j + 1)[j as int] == names@[j as int]);
                    }
                }
                assert forall|m: int| #![trigger names@[m]] 0 <= m < j + 1 implies exists|i: int|
                    0 <= i < h.series@.len() && #[trigger] h.series@[i].name@ == names@[m]@ by {
                    if m < j {
                        let i = choose|i: int| 0 <= i < before.len() && #[trigger] before[i].name@ == names@[m]@;
                        assert(h.series@[i] == before[i]);
                    } else {
                        assert(h.series@[before.len() as int].name@ == names@[m]@);
                    }
                }
            } else {
                let ghost i0 = found.unwrap();
                assert forall|i: int| 0 <= i < h.series@.len() implies names_contain(
                    names@.subrange(0, j + 1),
                    #[trigger] h.series@[i].name@,
                ) by {
                    assert(names_contain(names@.subrange(0, j as int), h.series@[i].name@));
                    let m = choose|m: int| 0 <= m < j && #[trigger] names@.subrange(0, j as int)[m]@ == h.series@[i].name@;
                    assert(names@.subrange(0, j + 1)[m] == names@[m]);
                }
                assert(h.series@[i0 as int].name@ == names@[j as int]@);
            }
            j = j + 1;
        }
        proof {
            assert(names@.subrange(0, names@.len() as int) =~= names@);
            lemma_series_map(h.series@);
            assert forall|k: Seq<char>| #[trigger] h@.dom().contains(k) <==> names_contain(names@, k) by {
                if h@.dom().contains(k) {
                    let i = choose|i: int| 0 <= i < h.series@.len() && h.series@[i].name@ == k;
                    assert(names_contain(names@.subrange(0, j as int), h.series@[i].name@));
                }
                if names_contain(names@, k) {
                    let m = choose|m: int| 0 <= m < names@.len() && #[trigger] names@[m]@ == k;
                    let i = choose|i: int| 0 <= i < h.series@.len() && #[trigger] h.series@[i].name@ == names@[m]@;
                    assert(h@.dom().contains(h.series@[i].name@));
                }
            }
            assert forall|k: Seq<char>| #[trigger] h@.dom().contains(k) implies h@[k] == Seq::<u64>::empty() by {
                let i = choose|i: int| 0 <= i < h.series@.len() && h.series@[i].name@ == k;
                assert(h@[h.series@[i].name@] == h.series@[i].values@);
                assert(h.series@[i].values@ =~= Seq::<u64>::empty());
            }
        }
        h
    }

    /// The position of the series named `name`.
    pub fn index_of(&self, name: &str) -> (r: Option<usize>)
        requires
            self.wf(),
        ensures
            r matches Some(i) ==> i < self.series@.len() && self.series@[i as int].name@ == name@,
            r is None ==> forall|i: int| 0 <= i < self.series@.len() ==> #[trigger] self.series@[i].name@ != name@,
            r is None <==> !self@.dom().contains(name@),
    {
        proof {
            lemma_series_map(self.series@);
        }
        let mut i: usize = 0;
        while i < self.series.len()
            invariant
                self.wf(),
                i <= self.series@.len(),
                forall|m: int| 0 <= m < i ==> #[trigger] self.series@[m].name@ != name@,
            decreases self.series@.len() - i,
        {
            if same_text(self.series[i].name.as_str(), name) {
                proof {
                    lemma_series_map(self.series@);
                    assert(self@.dom().contains(self.series@[i as int].name@));
                }
                return Some(i);
            }
            i = i + 1;
        }
        proof {
            if self@.dom().contains(name@) {
                let m = choose|m: int| 0 <= m < self.series@.len() && self.series@[m].name@ == name@;
                assert(self.series@[m].name@ != name@);
            }
        }
        None
    }

    /// Adds a sample to the series of `name`, if there is one.
    pub fn record(&mut self, name: &str, value: u64)
        requires
            old(self).wf(),
        ensures
            final(self).wf(),
            final(self)@ == (if old(self)@.dom().contains(name@) {
                old(self)@.insert(name@, bounded(old(self)@[name@].push(value)))
            } else {
                old(self)@
            }),
    {
        let found = self.index_of(name);
        if let Some(i) = found {
            let ghost before = self.series@;
            let mut values = copy_values(&self.series[i].values);
            push_bounded(&mut values, value);
            let e = NamedSeries { name: self.series[i].name.clone(), values };
            self.series.set(i, e);
            proof {
                let after = self.series@;
                assert(after == before.update(i as int, e));
                lemma_series_map(before);
                assert forall|a: int, b: int| 0 <= a < b < after.len() implies #[trigger] after[a].name@
                    != #[trigger] after[b].name@ by {
                    assert(after[a].name@ == before[a].name@ && after[b].name@ == before[b].name@);
                }
                let expected = series_map(before).insert(name@, bounded(series_map(before)[name@].push(value)));
                assert forall|m: int| 0 <= m < after.len() implies #[trigger] expected.dom().contains(after[m].name@)
                    && expected[after[m].name@] == after[m].values@ by {
                    if m != i {
                        assert(after[m] == before[m]);
                        assert(before[m].name@ != before[i as int].name@);
                    }
                }
                assert forall|k: Seq<char>| #[trigger] expected.dom().contains(k) implies exists|m: int|
                    0 <= m < after.len() && after[m].name@ == k by {
                    if k == name@ {
                        assert(after[i as int].name@ == k);
                    } else {
                        assert(series_map(before).dom().contains(k));
                        let m = choose|m: int| 0 <= m < before.len() && before[m].name@ == k;
                        assert(after[m].name@ == k);
                    }
                }
                lemma_map_is(after, expected);
            }
        }
    }

    /// Keeps the series of the `active` names, drops those of names that
    /// are gone or whose device was replaced, and starts an empty series for
    /// each active name that has none.
    pub fn reconcile(&mut self, active: &[String], replaced: &[String])
        requires
            old(self).wf(),
        ensures
            final(self).wf(),
            forall|k: Seq<char>| #[trigger] final(self)@.dom().contains(k) <==> names_contain(active@, k),
            forall|k: Seq<char>|
                #[trigger] final(self)@.dom().contains(k) ==> final(self)@[k] == (if old(self)@.dom().contains(k)
                    && !names_contain(replaced@, k) {
                    old(self)@[k]
                } else {
                    Seq::<u64>::empty()
                }),
    {
        let ghost old_map = self@;
        let ghost old_series = self.series@;
        let mut next: Vec<NamedSeries> = Vec::new();
        let ghost mut src: Seq<int> = Seq::empty();
        let mut i: usize = 0;
        while i < self.series.len()
            invariant
                i <= self.series@.len(),
                self.series@ == old_series,
                unique_names(old_series),
                next@.len() == src.len(),
                forall|n: int| 0 <= n < src.len() ==> 0 <= #[trigger] src[n] < i,
                forall|a: int, b: int| 0 <= a < b < src.len() ==> #[trigger] src[a] < #[trigger] src[b],
                forall|n: int|
                    0 <= n < src.len() ==> {
                        &&& #[trigger] next@[n].name@ == old_series[src[n]].name@
                        &&& next@[n].values@ == old_series[src[n]].values@
                        &&& names_contain(active@, next@[n].name@)
                        &&& !names_contain(replaced@, next@[n].name@)
                    },
                forall|m: int|
                    0 <= m < i && names_contain(active@, #[trigger] old_series[m].name@) && !names_contain(
                        replaced@,
                        old_series[m].name@,
                    ) ==> exists|n: int| 0 <= n < src.len() && src[n] == m,
            decreases self.series@.len() - i,
        {
            let keep = contains_name(active, self.series[i].name.as_str()) && !contains_name(
                replaced,
                self.series[i].name.as_str(),
            );
            if keep {
                let e = NamedSeries {
                    name: self.series[i].name.clone(),
                    values: copy_values(&self.series[i].values),
                };
                let ghost before = next@;
                let ghost src0 = src;
                next.push(e);
                proof {
                    src = src.push(i as int);
                    assert(next@ == before.push(e));
                    assert forall|n: int| 0 <= n < src.len() implies {
                        &&& #[trigger] next@[n].name@ == old_series[src[n]].name@
                        &&& next@[n].values@ == old_series[src[n]].values@
                        &&& names_contain(active@, next@[n].name@)
                        &&& !names_contain(replaced@, next@[n].name@)
                    } by {
                        if n < before.len() {
                            assert(next@[n] == before[n] && src[n] == src0[n]);
                        }
                    }
                    assert forall|m: int|
                        0 <= m < i + 1 && names_contain(active@, #[trigger] old_series[m].name@) && !names_contain(
                            replaced@,
                            old_series[m].name@,
                        ) implies exists|n: int| 0 <= n < src.len() && src[n] == m by {
                        if m < i {
                            let n = choose|n: int| 0 <= n < src0.len() && src0[n] == m;
                            assert(src[n] == src0[n]);
                        } else {
                            assert(src[src0.len() as int] == m);
                        }
                    }
                }
            }
            i = i + 1;
        }
        proof {
            lemma_series_map(old_series);
            assert forall|a: int, b: int| 0 <= a < b < next@.len() implies #[trigger] next@[a].name@
                != #[trigger] next@[b].name@ by {
                assert(src[a] < src[b]);
                assert(old_series[src[a]].name@ != old_series[src[b]].name@);
            }
            assert forall|k: Seq<char>|
                old_map.dom().contains(k) && names_contain(active@, k) && !names_contain(replaced@, k)
                    implies exists|n: int| 0 <= n < next@.len() && #[trigger] next@[n].name@ == k by {
                let m = choose|m: int| 0 <= m < old_series.len() && old_series[m].name@ == k;
                let n = choose|n: int| 0 <= n < src.len() && src[n] == m;
                assert(next@[n].name@ == old_series[src[n]].name@);
            }
            assert forall|n: int| 0 <= n < next@.len() implies {
                &&& names_contain(active@, #[trigger] next@[n].name@)
                &&& next@[n].values@.len() <= HISTORY_SIZE
                &&& next@[n].values@ == (if old_map.dom().contains(next@[n].name@) && !names_contain(
                    replaced@,
                    next@[n].name@,
                ) {
                    old_map[next@[n].name@]
                } else {
                    Seq::<u64>::empty()
                })
            } by {
                assert(next@[n].name@ == old_series[src[n]].name@);
                assert(old_series[src[n]].values@.len() <= HISTORY_SIZE);
            }
        }
        let mut j: usize = 0;
        while j < active.len()
            invariant
                j <= active@.len(),
                unique_names(next@),
                forall|n: int|
                    0 <= n < next@.len() ==> {
                        &&& names_contain(active@, #[trigger] next@[n].name@)
                        &&& next@[n].values@.len() <= HISTORY_SIZE
                        &&& next@[n].values@ == (if old_map.dom().contains(next@[n].name@) && !names_contain(
                            replaced@,
                            next@[n].name@,
                        ) {
                            old_map[next@[n].name@]
                        } else {
                            Seq::<u64>::empty()
                        })
                    },
                forall|k: Seq<char>|
                    old_map.dom().contains(k) && names_contain(active@, k) && !names_contain(replaced@, k)
                        ==> exists|n: int| 0 <= n < next@.len() && #[trigger] next@[n].name@ == k,
                forall|m: int|
                    #![trigger active@[m]]
                    0 <= m < j ==> exists|n: int| 0 <= n < next@.len() && #[trigger] next@[n].name@ == active@[m]@,
            decreases active@.len() - j,
        {
            let h = SeriesHistory { series: next };
            proof {
                assert forall|n: int| 0 <= n < h.series@.len() implies #[trigger] h.series@[n].values@.len() <= HISTORY_SIZE by {
                    assert(names_contain(active@, h.series@[n].name@));
                }
            }
            let found = h.index_of(active[j].as_str());
            next = h.series;
            if found.is_none() {
                let e = NamedSeries { name: active[j].clone(), values: Vec::new() };
                let ghost before = next@;
                next.push(e);
                proof {
                    assert(next@ == before.push(e));
                    assert forall|a: int, b: int| 0 <= a < b < next@.len() implies #[trigger] next@[a].name@
                        != #[trigger] next@[b].name@ by {
                        if b == before.len() {
                            assert(before[a].name@ != active@[j as int]@);
                        } else {
                            assert(next@[a] == before[a] && next@[b] == before[b]);
                        }
                    }
                    assert(names_contain(active@, e.name@)) by {
                        assert(active@[j as int]@ == e.name@);
                    }
                    if old_map.dom().contains(e.name@) && !names_contain(replaced@, e.name@) {
                        let n = choose|n: int| 0 <= n < before.len() && #[trigger] before[n].name@ == e.name@;
                        assert(before[n].name@ != active@[j as int]@);
                    }
                    assert(e.values@ =~= Seq::<u64>::empty());
                    assert forall|n: int| 0 <= n < next@.len() implies {
                        &&& names_contain(active@, #[trigger] next@[n].name@)
                        &&& next@[n].values@.len() <= HISTORY_SIZE
                        &&& next@[n].values@ == (if old_map.dom().contains(next@[n].name@) && !names_contain(
                            replaced@,
                            next@[n].name@,
                        ) {
                            old_map[next@[n].name@]
                        } else {
                            Seq::<u64>::empty()
                        })
                    } by {
                        if n < before.len() {
                            assert(next@[n] == before[n]);
                        }
                    }
                    assert forall|k: Seq<char>|
                        old_map.dom().contains(k) && names_contain(active@, k) && !names_contain(replaced@, k)
                            implies exists|n: int| 0 <= n < next@.len() && #[trigger] next@[n].name@ == k by {
                        let n = choose|n: int| 0 <= n < before.len() && #[trigger] before[n].name@ == k;
                        assert(next@[n] == before[n]);
                    }
                    assert forall|m: int| #![trigger active@[m]] 0 <= m < j + 1 implies exists|n: int|
                        0 <= n < next@.len() && #[trigger] next@[n].name@ == active@[m]@ by {
                        if m < j {
                            let n = choose|n: int| 0 <= n < before.len() && #[trigger] before[n].name@ == active@[m]@;
                            assert(next@[n] == before[n]);
                        } else {
                            assert(next@[before.len() as int].name@ == active@[m]@);
                        }
                    }
                }
            } else {
                let ghost n0 = found.unwrap();
                assert(next@[n0 as int].name@ == active@[j as int]@);
            }
            j = j + 1;
        }
        self.series = next;
        proof {
            let s = self.series@;
            assert forall|n: int| 0 <= n < s.len() implies #[trigger] s[n].values@.len() <= HISTORY_SIZE by {
                assert(names_contain(active@, s[n].name@));
            }
            let expected = Map::new(
                |k: Seq<char>| names_contain(active@, k),
                |k: Seq<char>| if old_map.dom().contains(k) && !names_contain(replaced@, k) {
                    old_map[k]
                } else {
                    Seq::<u64>::empty()
                },
            );
            assert forall|k: Seq<char>| #[trigger] expected.dom().contains(k) implies exists|n: int|
                0 <= n < s.len() && s[n].name@ == k by {
                let m = choose|m: int| 0 <= m < active@.len() && #[trigger] active@[m]@ == k;
                let n = choose|n: int| 0 <= n < s.len() && #[trigger] s[n].name@ == active@[m]@;
            }
            lemma_map_is(s, expected);
        }
    }

    /// Whether any series holds a sample above zero.
    pub fn any_positive(&self) -> (r: bool)
        requires
            self.wf(),
        ensures
            r == exists|k: Seq<char>| #[trigger] self@.dom().contains(k) && has_positive(self@[k]),
    {
        proof {
            lemma_series_map(self.series@);
        }
        let mut i: usize = 0;
        while i < self.series.len()
            invariant
                self.wf(),
                i <= self.series@.len(),
                forall|m: int| 0 <= m < i ==> !has_positive(#[trigger] self.series@[m].values@),
            decreases self.series@.len() - i,
        {
            let values = &self.series[i].values;
            let mut j: usize = 0;
            while j < values.len()
                invariant
                    self.wf(),
                    i < self.series@.len(),
                    values@ == self.series@[i as int].values@,
                    j <= values@.len(),
                    forall|q: int| 0 <= q < j ==> values@[q] == 0,
                decreases values@.len() - j,
            {
                if values[j] > 0 {
                    proof {
                        lemma_series_map(self.series@);
                        let k = self.series@[i as int].name@;
                        assert(self@.dom().contains(k) && self@[k] == values@);
                        assert(has_positive(self@[k]));
                    }
                    return true;
                }
                j = j + 1;
            }
            i = i + 1;
        }
        proof {
            assert forall|k: Seq<char>| #[trigger] self@.dom().contains(k) implies !has_positive(self@[k]) by {
                let m = choose|m: int| 0 <= m < self.series@.len() && self.series@[m].name@ == k;
                assert(self@[self.series@[m].name@] == self.series@[m].values@);
            }
        }
        false
    }
}


/// Whether some array of `speeds` is named `name`.
fn speeds_name(speeds: &[(String, u64)], name: &str) -> (r: bool)
    ensures
        r == speeds_contain(speeds@, name@),
{
    let mut j: usize = 0;
    while j < speeds.len()
        invariant
            j <= speeds@.len(),
            forall|m: int| 0 <= m < j ==> speeds@[m].0@ != name@,
        decreases speeds@.len() - j,
    {
        if same_text(speeds[j].0.as_str(), name) {
            assert(speeds@[j as int].0@ == name@);
            return true;
        }
        j = j + 1;
    }
    false
}

fn positive_sample(values: &Vec<u64>) -> (r: bool)
    ensures
        r == has_positive(values@),
{
    let mut j: usize = 0;
    while j < values.len()
        invariant
            j <= values@.len(),
            forall|q: int| 0 <= q < j ==> values@[q] == 0,
        decreases values@.len() - j,
    {
        if values[j] > 0 {
            return true;
        }
        j = j + 1;
    }
    false
}

/// The speed samples of the arrays, in tenths of MB/s; an array that is
/// not rebuilding gives zero so that every series shares one time axis.
pub open spec fn speed_samples(raids: Seq<RaidSummary>) -> Seq<(Seq<char>, u64)> {
    raids.map_values(
        |r: RaidSummary|
            (
                r.name@,
                match r.rebuild_speed_mb {
                    Some(v) => if v * 10 > u64::MAX {
                        u64::MAX
                    } else {
                        (v * 10) as u64
                    },
                    None => 0u64,
                },
            ),
    )
}

/// The speed samples of `raids`, named by array.
pub fn array_speed_samples(raids: &[RaidSummary]) -> (r: Vec<(String, u64)>)
    ensures
        r@.len() == raids@.len(),
        forall|i: int|
            0 <= i < r@.len() ==> (#[trigger] r@[i]).0@ == speed_samples(raids@)[i].0 && r@[i].1
                == speed_samples(raids@)[i].1,
{
    let mut r: Vec<(String, u64)> = Vec::new();
    let mut i: usize = 0;
    while i < raids.len()
        invariant
            i <= raids@.len(),
            r@.len() == i,
            forall|m: int|
                0 <= m < i ==> (#[trigger] r@[m]).0@ == speed_samples(raids@)[m].0 && r@[m].1
                    == speed_samples(raids@)[m].1,
        decreases raids@.len() - i,
    {
        let speed: u64 = match raids[i].rebuild_speed_mb {
            Some(v) => if v > u64::MAX / 10 {
                u64::MAX
            } else {
                v * 10
            },
            None => 0,
        };
        r.push((raids[i].name.clone(), speed));
        i = i + 1;
    }
    r
}

/// Whether the array graph is shown: while an array rebuilds, and while
/// rebuild samples above zero are still in the window, so that the layout
/// does not flicker when a rebuild ends.
pub fn raid_graph_visible(raids: &[RaidSummary], speed_history: &SeriesHistory) -> (r: bool)
    requires
        speed_history.wf(),
    ensures
        r == ((exists|i: int| 0 <= i < raids@.len() && #[trigger] raids@[i].state == RaidState::Rebuilding)
            || exists|k: Seq<char>| #[trigger] speed_history@.dom().contains(k) && has_positive(speed_history@[k])),
{
    let mut i: usize = 0;
    while i < raids.len()
        invariant
            i <= raids@.len(),
            forall|m: int| 0 <= m < i ==> #[trigger] raids@[m].state != RaidState::Rebuilding,
        decreases raids@.len() - i,
    {
        if raids[i].state == RaidState::Rebuilding {
            return true;
        }
        i = i + 1;
    }
    speed_history.any_positive()
}

impl SeriesHistory {
    /// Adds a speed sample for array `name`, starting its series if new.
    pub fn sample(&mut self, name: &str, value: u64)
        requires
            old(self).wf(),
        ensures
            final(self).wf(),
            final(self)@ == with_sample(old(self)@, name@, value),
    {
        let found = self.index_of(name);
        if found.is_some() {
            self.record(name, value);
        } else {
            let mut values: Vec<u64> = Vec::new();
            values.push(value);
            let e = NamedSeries { name: name.to_string(), values };
            let ghost before = self.series@;
            self.series.push(e);
            proof {
                let after = self.series@;
                assert(after == before.push(e));
                lemma_series_map(before);
                assert forall|a: int, b: int| 0 <= a < b < after.len() implies #[trigger] after[a].name@
                    != #[trigger] after[b].name@ by {
                    if b < before.len() {
                        assert(after[a] == before[a] && after[b] == before[b]);
                    } else {
                        assert(before[a].name@ != name@);
                    }
                }
                assert(bounded(Seq::<u64>::empty().push(value)) =~= e.values@);
                let expected = with_sample(series_map(before), name@, value);
                assert forall|m: int| 0 <= m < after.len() implies #[trigger] expected.dom().contains(after[m].name@)
                    && expected[after[m].name@] == after[m].values@ by {
                    if m < before.len() {
                        assert(after[m] == before[m]);
                        assert(before[m].name@ != name@);
                    }
                }
                assert forall|k: Seq<char>| #[trigger] expected.dom().contains(k) implies exists|m: int|
                    0 <= m < after.len() && after[m].name@ == k by {
                    if k == name@ {
                        assert(after[before.len() as int].name@ == k);
                    } else {
                        let m = choose|m: int| 0 <= m < before.len() && before[m].name@ == k;
                        assert(after[m] == before[m]);
                    }
                }
                lemma_map_is(after, expected);
            }
        }
    }

    /// One round of array rebuild speeds: each reported array gets its
    /// sample; an array no longer reported gets a zero sample and is
    /// dropped once only zeros are left in its window.
    pub fn update_array_speeds(&mut self, speeds: &[(String, u64)])
        requires
            old(self).wf(),
        ensures
            final(self).wf(),
            forall|k: Seq<char>|
                #[trigger] final(self)@.dom().contains(k) <==> kept_after_update(old(self)@, speeds@, k),
            forall|k: Seq<char>|
                #[trigger] final(self)@.dom().contains(k) ==> final(self)@[k] == after_update(old(self)@, speeds@, k),
    {
        let ghost old_map = self@;
        let mut j: usize = 0;
        while j < speeds.len()
            invariant
                j <= speeds@.len(),
                self.wf(),
                self@ == with_samples(old_map, speeds@.subrange(0, j as int)),
            decreases speeds@.len() - j,
        {
            self.sample(speeds[j].0.as_str(), speeds[j].1);
            proof {
                let t = speeds@.subrange(0, j + 1);
                assert(t.drop_last() =~= speeds@.subrange(0, j as int));
                assert(t.last() == speeds@[j as int]);
            }
            j = j + 1;
        }
        assert(speeds@.subrange(0, speeds@.len() as int) =~= speeds@);
        let ghost s1 = self.series@;
        let ghost m1 = self@;
        proof {
            lemma_series_map(s1);
        }
        let mut next: Vec<NamedSeries> = Vec::new();
        let ghost mut src: Seq<int> = Seq::empty();
        let mut i: usize = 0;
        while i < self.series.len()
            invariant
                i <= self.series@.len(),
                self.series@ == s1,
                self.wf(),
                m1 == with_samples(old_map, speeds@),
                m1 == series_map(s1),
                forall|m: int|
                    0 <= m < s1.len() ==> #[trigger] m1.dom().contains(s1[m].name@) && m1[s1[m].name@] == s1[m].values@,
                next@.len() == src.len(),
                forall|n: int| 0 <= n < src.len() ==> 0 <= #[trigger] src[n] < i,
                forall|a: int, b: int| 0 <= a < b < src.len() ==> #[trigger] src[a] < #[trigger] src[b],
                forall|n: int| 0 <= n < src.len() ==> #[trigger] next@[n].name@ == s1[src[n]].name@,
                forall|n: int|
                    0 <= n < src.len() ==> #[trigger] next@[n].values@ == after_update(old_map, speeds@, s1[src[n]].name@),
                forall|n: int| 0 <= n < src.len() ==> #[trigger] next@[n].values@.len() <= HISTORY_SIZE,
                forall|n: int| 0 <= n < src.len() ==> kept_after_update(old_map, speeds@, #[trigger] s1[src[n]].name@),
                forall|m: int|
                    0 <= m < i && kept_after_update(old_map, speeds@, #[trigger] s1[m].name@) ==> exists|n: int|
                        0 <= n < src.len() && src[n] == m,
            decreases self.series@.len() - i,
        {
            let current = speeds_name(speeds, self.series[i].name.as_str());
            let mut values = copy_values(&self.series[i].values);
            if !current {
                push_bounded(&mut values, 0);
            }
            proof {
                assert(m1.dom().contains(s1[i as int].name@) && m1[s1[i as int].name@] == s1[i as int].values@);
            }
            let keep = current || positive_sample(&values);
            if keep {
                let e = NamedSeries { name: self.series[i].name.clone(), values };
                let ghost before = next@;
                let ghost src0 = src;
                next.push(e);
                proof {
                    src = src.push(i as int);
                    assert(next@ == before.push(e));
                    assert forall|n: int| 0 <= n < src.len() implies {
                        &&& #[trigger] next@[n].name@ == s1[src[n]].name@
                        &&& next@[n].values@ == after_update(old_map, speeds@, s1[src[n]].name@)
                        &&& next@[n].values@.len() <= HISTORY_SIZE
                        &&& kept_after_update(old_map, speeds@, s1[src[n]].name@)
                    } by {
                        if n < before.len() {
                            assert(next@[n] == before[n] && src[n] == src0[n]);
                        } else {
                            let k = s1[i as int].name@;
                            assert(src[n] == i);
                            assert(next@[n] == e);
                            assert(current == speeds_contain(speeds@, k));
                            assert(with_samples(old_map, speeds@)[k] == s1[i as int].values@);
                            assert(e.values@ == after_update(old_map, speeds@, k));
                            assert(s1[i as int].values@.len() <= HISTORY_SIZE);
                            assert(kept_after_update(old_map, speeds@, k));
                        }
                    }
                    assert forall|m: int|
                        0 <= m < i + 1 && kept_after_update(old_map, speeds@, #[trigger] s1[m].name@)
                            implies exists|n: int| 0 <= n < src.len() && src[n] == m by {
                        if m < i {
                            let n = choose|n: int| 0 <= n < src0.len() && src0[n] == m;
                            assert(src[n] == src0[n]);
                        } else {
                            assert(src[src0.len() as int] == m);
                        }
                    }
                }
            }
            i = i + 1;
        }
        proof {
            assert forall|a: int, b: int| 0 <= a < b < next@.len() implies #[trigger] next@[a].name@
                != #[trigger] next@[b].name@ by {
                assert(src[a] < src[b]);
                assert(s1[src[a]].name@ != s1[src[b]].name@);
            }
        }
        self.series = next;
        proof {
            let s = self.series@;
            assert forall|n: int| 0 <= n < s.len() implies #[trigger] s[n].values@.len() <= HISTORY_SIZE by {
                assert(s[n].name@ == s1[src[n]].name@);
            }
            let expected = Map::new(
                |k: Seq<char>| kept_after_update(old_map, speeds@, k),
                |k: Seq<char>| after_update(old_map, speeds@, k),
            );
            assert forall|n: int| 0 <= n < s.len() implies #[trigger] expected.dom().contains(s[n].name@)
                && expected[s[n].name@] == s[n].values@ by {
                assert(s[n].name@ == s1[src[n]].name@);
            }
            assert forall|k: Seq<char>| #[trigger] expected.dom().contains(k) implies exists|n: int|
                0 <= n < s.len() && s[n].name@ == k by {
                let m = choose|m: int| 0 <= m < s1.len() && s1[m].name@ == k;
                let n = choose|n: int| 0 <= n < src.len() && src[n] == m;
                assert(s[n].name@ == s1[src[n]].name@);
            }
            lemma_map_is(s, expected);
        }
    }
}

/// Every series keeps at most `HISTORY_SIZE` samples: adding one to a
/// series within the bound leaves it within the bound, and the newest
/// sample is always the last one.
pub proof fn lemma_bounded_window(s: Seq<u64>, v: u64)
    requires
        s.len() <= HISTORY_SIZE,
    ensures
        bounded(s.push(v)).len() <= HISTORY_SIZE,
        bounded(s.push(v)).last() == v,
        s.len() < HISTORY_SIZE ==> bounded(s.push(v)) == s.push(v),
{
}

} // verus!
