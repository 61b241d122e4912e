//! Rank-based bins for a heatmap, and the cut points to print.
//!
//! Chat activity is long-tailed: binning linearly on the maximum puts nearly
//! every day in the first shade and leaves the rest of the ramp unused.
//! Splitting on quantiles instead spends all the shades; the cost is that a
//! shade means *rank* rather than magnitude, so the cut points are printed
//! beside the key.
//!
//! Zeroes are excluded from the split: a day nobody spoke is not the quiet end
//! of the scale, it is off the scale, and it gets the track colour.

use vstd::prelude::*;
use vstd::arithmetic::div_mod::lemma_div_is_ordered;
use vstd::arithmetic::mul::lemma_mul_inequality;

use crate::order::{ascending, is_ascending, lemma_is_ascending_of, lemma_ascending, sort_ascending};
use crate::text::{dec, natural, thousands, thousands_spec};

verus! {

broadcast use {vstd::seq_lib::group_to_multiset_ensures, vstd::multiset::group_multiset_axioms};

/// Rank-based bins: `steps` shades, the values at which a shade begins, and
/// the largest value seen.
#[derive(Debug, Clone)]
pub struct Quantiles {
    pub steps: usize,
    pub edges: Vec<i64>,
    pub top: i64,
}

/// The values that take part in the split: zero and below are off the scale.
pub open spec fn positive(values: Seq<i64>) -> Seq<i64> {
    values.filter(is_positive())
}

/// The test a value passes to take part in the split.
pub open spec fn is_positive() -> spec_fn(i64) -> bool {
    |v: i64| v > 0
}

/// The positive values, smallest first.
pub open spec fn ordered_of(values: Seq<i64>) -> Seq<i64> {
    ascending(positive(values))
}

/// Runs of equal neighbours collapsed to one, as `Vec::dedup` does.
pub open spec fn dedup(s: Seq<i64>) -> Seq<i64>
    decreases s.len(),
{
    if s.len() <= 1 {
        s
    } else if s.last() == s[s.len() - 2] {
        dedup(s.drop_last())
    } else {
        dedup(s.drop_last()).push(s.last())
    }
}

/// Where the `i`-th of `steps` cuts falls in a list of `len` values.
pub open spec fn pick_at(len: int, i: int, steps: int) -> int {
    let at = len * i / steps;
    if at < len - 1 { at } else { len - 1 }
}

/// The value at each of the `steps - 1` interior cuts.
pub open spec fn picks(source: Seq<i64>, steps: nat) -> Seq<i64> {
    Seq::new((steps - 1) as nat, |k: int| source[pick_at(source.len() as int, k + 1, steps as int)])
}

/// The interior quantile values of `source`, sorted, repeats removed.
pub open spec fn raw_cuts(source: Seq<i64>, steps: nat) -> Seq<i64> {
    dedup(ascending(picks(source, steps)))
}

/// The cut points of `source`: its interior quantile values, sorted, repeats
/// removed, and none at the smallest value — a cut there would leave the first
/// shade with nothing to paint.
pub open spec fn cuts(source: Seq<i64>, steps: nat) -> Seq<i64> {
    let c = raw_cuts(source, steps);
    if c.len() > 0 && c[0] == source[0] {
        c.skip(1)
    } else {
        c
    }
}

/// The edges of the shades for an ascending list of positive values.
///
/// Few enough distinct values that each can have its own shade get one each.
/// Otherwise the list is cut on its quantiles; if those collapse onto a
/// repeated value and leave shades unused, the distinct values are cut instead.
pub open spec fn quantile_edges(ordered: Seq<i64>, steps: nat) -> Seq<i64> {
    if ordered.len() == 0 {
        Seq::empty()
    } else {
        let distinct = dedup(ordered);
        if distinct.len() <= steps {
            distinct.skip(1)
        } else {
            let first = cuts(ordered, steps);
            if first.len() < steps - 1 {
                cuts(distinct, steps)
            } else {
                first
            }
        }
    }
}

/// How many of the edges `value` has reached.
pub open spec fn reached(edges: Seq<i64>, value: i64) -> nat
    decreases edges.len(),
{
    if edges.len() == 0 {
        0
    } else {
        reached(edges.drop_last(), value) + if value >= edges.last() { 1nat } else { 0nat }
    }
}

/// The shade a value lands on: `0` is the track, `1..=steps` the ramp.
pub open spec fn shade(edges: Seq<i64>, steps: nat, value: i64) -> nat {
    if value <= 0 {
        0
    } else {
        let step = 1 + reached(edges, value);
        if step < steps { step } else { steps }
    }
}

/// The colour a shade is painted in.
pub open spec fn shade_var(step: nat) -> Seq<char> {
    if step == 0 {
        "var(--track)"@
    } else {
        "var(--r"@ + dec(step) + ")"@
    }
}

/// Grouped numbers joined with `, `.
pub open spec fn joined_counts(values: Seq<i64>) -> Seq<char>
    decreases values.len(),
{
    if values.len() == 0 {
        Seq::empty()
    } else if values.len() == 1 {
        thousands_spec(values[0] as int)
    } else {
        joined_counts(values.drop_last()) + ", "@ + thousands_spec(values.last() as int)
    }
}

/// The cut points, as prose.
pub open spec fn caption_spec(edges: Seq<i64>, top: i64, unit: Seq<char>) -> Seq<char> {
    if edges.len() == 0 {
        Seq::empty()
    } else {
        "Five shades, one per fifth of the range actually used; the cut points are "@
            + joined_counts(edges) + " and "@ + thousands_spec(top as int)
            + (if unit.len() == 0 { Seq::empty() } else { " "@ + unit }) + "."@
    }
}

proof fn lemma_pick_at_ordered(len: int, i: int, j: int, steps: int)
    requires
        0 < steps,
        0 < len,
        0 <= i <= j,
    ensures
        0 <= pick_at(len, i, steps) <= pick_at(len, j, steps) < len,
{
    lemma_mul_inequality(i, j, len);
    assert(i * len == len * i) by (nonlinear_arith);
    assert(j * len == len * j) by (nonlinear_arith);
    lemma_div_is_ordered(len * i, len * j, steps);
    assert(0 <= len * i) by (nonlinear_arith)
        requires
            0 < len,
            0 <= i,
    ;
    assert(0 <= (len * i) / steps) by (nonlinear_arith)
        requires
            0 <= len * i,
            0 < steps,
    ;
}

proof fn lemma_picks_ascending(source: Seq<i64>, steps: nat)
    requires
        is_ascending(source),
        source.len() > 0,
        steps >= 1,
    ensures
        is_ascending(picks(source, steps)),
        ascending(picks(source, steps)) == picks(source, steps),
{
    let p = picks(source, steps);
    assert forall|i: int, j: int| 0 <= i <= j < p.len() implies p[i] <= p[j] by {
        lemma_pick_at_ordered(source.len() as int, i + 1, j + 1, steps as int);
    }
    lemma_is_ascending_of(p, p);
}

fn dedup_vec(s: &Vec<i64>) -> (out: Vec<i64>)
    ensures
        out@ == dedup(s@),
{
    let mut out: Vec<i64> = Vec::new();
    let mut i: usize = 0;
    while i < s.len()
        invariant
            i <= s.len(),
            out@ == dedup(s@.take(i as int)),
        decreases s.len() - i,
    {
        let ghost t = s@.take(i + 1);
        proof {
            assert(t.drop_last() == s@.take(i as int));
            if i >= 1 {
                assert(t[t.len() - 2] == s@[i - 1]);
            }
        }
        if i == 0 || s[i] != s[i - 1] {
            out.push(s[i]);
            proof {
                if i == 0 {
                    assert(out@ =~= t);
                }
            }
        }
        i = i + 1;
    }
    proof {
        assert(s@.take(s.len() as int) == s@);
    }
    out
}

fn cut_points(source: &Vec<i64>, steps: usize) -> (out: Vec<i64>)
    requires
        is_ascending(source@),
        source.len() > 0,
        steps >= 1,
    ensures
        out@ == cuts(source@, steps as nat),
{
    let len = source.len();
    let mut picked: Vec<i64> = Vec::new();
    let mut i: usize = 1;
    while i < steps
        invariant
            len == source.len(),
            len > 0,
            1 <= i <= steps,
            picked@ == picks(source@, steps as nat).take(i - 1),
        decreases steps - i,
    {
        proof {
            lemma_pick_at_ordered(len as int, i as int, i as int, steps as int);
            assert(usize::MAX <= 0xffff_ffff_ffff_ffff);
            assert((len as int) * (i as int) <= u128::MAX) by (nonlinear_arith)
                requires
                    0 <= len <= 0xffff_ffff_ffff_ffff,
                    0 <= i <= 0xffff_ffff_ffff_ffff,
            ;
        }
        // The product of two machine words always fits in twice the width.
        let product: u128 = (len as u128) * (i as u128);
        let quotient: u128 = product / (steps as u128);
        proof {
            assert(quotient as int == (len as int) * (i as int) / (steps as int));
        }
        let at: usize = if quotient < (len - 1) as u128 { quotient as usize } else { len - 1 };
        picked.push(source[at]);
        proof {
            assert(picked@ =~= picks(source@, steps as nat).take(i as int));
        }
        i = i + 1;
    }
    proof {
        assert(picked@ =~= picks(source@, steps as nat));
        lemma_picks_ascending(source@, steps as nat);
    }
    let mut out = dedup_vec(&picked);
    if out.len() > 0 && out[0] == source[0] {
        out.remove(0);
        proof {
            assert(out@ =~= raw_cuts(source@, steps as nat).skip(1));
        }
    }
    out
}

/// The largest positive value, or zero when there is none.
pub open spec fn top_of(values: Seq<i64>) -> i64 {
    if ordered_of(values).len() == 0 { 0 } else { ordered_of(values).last() }
}

impl Quantiles {
    /// Five shades, the design's ramp.
    pub fn new(values: Vec<i64>) -> (q: Self)
        ensures
            q.steps == 5,
            q.edges@ == quantile_edges(ordered_of(values@), 5),
            q.top == top_of(values@),
    {
        Self::with_steps(values, 5)
    }

    /// `steps` shades over the positive values.
    pub fn with_steps(values: Vec<i64>, steps: usize) -> (q: Self)
        requires
            steps >= 1 || positive(values@).len() == 0,
        ensures
            q.steps == steps,
            q.edges@ == quantile_edges(ordered_of(values@), steps as nat),
            q.top == top_of(values@),
    {

        let mut ordered: Vec<i64> = Vec::new();
        let mut i: usize = 0;
        while i < values.len()
            invariant
                i <= values.len(),
                ordered@ == values@.take(i as int).filter(is_positive()),
            decreases values.len() - i,
        {
            proof {
                assert(values@.take(i + 1) == values@.take(i as int).push(values@[i as int]));
                values@.take(i as int).lemma_filter_push(values@[i as int], is_positive());
                assert(is_positive()(values@[i as int]) == (values@[i as int] > 0));
            }
            if values[i] > 0 {
                ordered.push(values[i]);
            }
            i = i + 1;
        }
        proof {
            assert(values@.take(values.len() as int) == values@);
            assert(ordered@ == positive(values@));
            values@.lemma_filter_len(is_positive());
        }
        let ghost unsorted = ordered@;
        sort_ascending(&mut ordered);
        proof {
            lemma_is_ascending_of(unsorted, ordered@);
            assert(ordered@.len() == ordered@.to_multiset().len());
            assert(unsorted.len() == unsorted.to_multiset().len());
        }
        let top = if ordered.len() == 0 { 0 } else { ordered[ordered.len() - 1] };
        if ordered.len() == 0 {
            return Quantiles { steps, edges: Vec::new(), top };
        }
        let distinct = dedup_vec(&ordered);
        proof {
            lemma_dedup_len(ordered@);
        }
        if distinct.len() <= steps {
            let mut edges: Vec<i64> = Vec::new();
            let mut k: usize = 1;
            while k < distinct.len()
                invariant
                    1 <= k <= distinct.len(),
                    edges@ == distinct@.subrange(1, k as int),
                decreases distinct.len() - k,
            {
                edges.push(distinct[k]);
                proof {
                    assert(edges@ =~= distinct@.subrange(1, k + 1));
                }
                k = k + 1;
            }
            proof {
                assert(edges@ =~= distinct@.skip(1));
            }
            return Quantiles { steps, edges, top };
        }
        let first = cut_points(&ordered, steps);
        if first.len() < steps - 1 {
            proof {
                lemma_dedup_ascending(ordered@);
            }
            let edges = cut_points(&distinct, steps);
            Quantiles { steps, edges, top }
        } else {
            Quantiles { steps, edges: first, top }
        }
    }

    /// Which shade a value lands on: `0` is the track, `1..=steps` the ramp.
    pub fn index(&self, value: i64) -> (step: usize)
        ensures
            step == shade(self.edges@, self.steps as nat, value),
    {
        if value <= 0 {
            return 0;
        }
        let mut count: usize = 0;
        let mut i: usize = 0;
        while i < self.edges.len()
            invariant
                i <= self.edges.len(),
                count == reached(self.edges@.take(i as int), value),
                count <= i,
            decreases self.edges.len() - i,
        {
            proof {
                assert(self.edges@.take(i + 1).drop_last() == self.edges@.take(i as int));
            }
            if value >= self.edges[i] {
                count = count + 1;
            }
            i = i + 1;
        }
        proof {
            assert(self.edges@.take(self.edges.len() as int) == self.edges@);
        }
        if self.steps > 0 && count < self.steps - 1 {
            count + 1
        } else {
            self.steps
        }
    }

    /// The fill for a value: the track, or the ramp step it lands on.
    pub fn var(&self, value: i64) -> (out: String)
        ensures
            out@ == shade_var(shade(self.edges@, self.steps as nat, value)),
    {
        let step = self.index(value);
        if step == 0 {
            return String::from_str("var(--track)");
        }
        let mut out = String::from_str("var(--r");
        let number = natural(step as u64);
        out.append(number.as_str());
        out.append(")");
        out
    }

    /// The cut points, as prose, so the key can be read as numbers.
    pub fn caption(&self, unit: &str) -> (out: String)
        ensures
            out@ == caption_spec(self.edges@, self.top, unit@),
    {
        if self.edges.len() == 0 {
            return String::new();
        }
        let mut out = String::from_str(
            "Five shades, one per fifth of the range actually used; the cut points are ",
        );
        let ghost head = out@;
        let mut i: usize = 0;
        while i < self.edges.len()
            invariant
                i <= self.edges.len(),
                out@ == head + joined_counts(self.edges@.take(i as int)),
            decreases self.edges.len() - i,
        {
            let ghost t = self.edges@.take(i + 1);
            proof {
                assert(t.drop_last() == self.edges@.take(i as int));
            }
            if i > 0 {
                out.append(", ");
            }
            let cell = thousands(self.edges[i]);
            out.append(cell.as_str());
            proof {
                if i == 0 {
                    assert(joined_counts(self.edges@.take(0)) == Seq::<char>::empty());
                    assert(out@ =~= head + joined_counts(t));
                } else {
                    assert(out@ =~= head + joined_counts(t));
                }
            }
            i = i + 1;
        }
        proof {
            assert(self.edges@.take(self.edges.len() as int) == self.edges@);
        }
        let ghost listed = out@;
        out.append(" and ");
        let top = thousands(self.top);
        out.append(top.as_str());
        let ghost with_top = out@;
        let ghost tail: Seq<char> = if unit@.len() == 0 { Seq::empty() } else { " "@ + unit@ };
        if !unit.is_empty() {
            out.append(" ");
            out.append(unit);
        }
        proof {
            assert(out@ =~= with_top + tail);
        }
        out.append(".");
        proof {
            assert(listed == head + joined_counts(self.edges@));
            assert(with_top =~= listed + " and "@ + thousands_spec(self.top as int));
            assert(out@ =~= caption_spec(self.edges@, self.top, unit@));
        }
        out
    }
}

proof fn lemma_dedup_len(s: Seq<i64>)
    ensures
        dedup(s).len() <= s.len(),
        s.len() > 0 ==> dedup(s).len() > 0,
    decreases s.len(),
{
    if s.len() > 1 {
        lemma_dedup_len(s.drop_last());
    }
}

/// Collapsing runs keeps an ascending list ascending.
pub proof fn lemma_dedup_ascending(s: Seq<i64>)
    requires
        is_ascending(s),
    ensures
        is_ascending(dedup(s)),
        s.len() > 0 ==> dedup(s).len() > 0 && dedup(s).last() == s.last(),
        forall|k: int| 0 <= k < dedup(s).len() ==> s.contains(#[trigger] dedup(s)[k]),
    decreases s.len(),
{
    if s.len() > 1 {
        let p = s.drop_last();
        lemma_dedup_ascending(p);
        lemma_dedup_len(p);
        let d = dedup(p);
        assert forall|k: int| 0 <= k < d.len() implies s.contains(#[trigger] d[k]) by {
            assert(p.contains(d[k]));
            let j = choose|j: int| 0 <= j < p.len() && p[j] == d[k];
            assert(s[j] == d[k]);
        }
        assert(s[s.len() - 1] == s.last());
        if s.last() != s[s.len() - 2] {
            let e = d.push(s.last());
            assert forall|i: int, j: int| 0 <= i <= j < e.len() implies e[i] <= e[j] by {
                if j == e.len() - 1 && i < j {
                    assert(p.contains(d[i]));
                    let m = choose|m: int| 0 <= m < p.len() && p[m] == d[i];
                }
            }
            assert forall|k: int| 0 <= k < e.len() implies s.contains(#[trigger] e[k]) by {
                if k < d.len() {
                    assert(s.contains(d[k]));
                } else {
                    assert(s[s.len() - 1] == e[k]);
                }
            }
        }
    }
}

} // verus!

verus! {



/// Every element strictly below any element after it.
pub open spec fn strictly_increasing(s: Seq<i64>) -> bool {
    forall|i: int, j: int| 0 <= i < j < s.len() ==> s[i] < s[j]
}

proof fn lemma_reached_monotone(edges: Seq<i64>, a: i64, b: i64)
    requires
        a <= b,
    ensures
        reached(edges, a) <= reached(edges, b),
        reached(edges, a) <= edges.len(),
    decreases edges.len(),
{
    if edges.len() > 0 {
        lemma_reached_monotone(edges.drop_last(), a, b);
    }
}

/// Every shade is on the scale: the track or one of the `steps` ramp steps,
/// and the track is exactly the values at or below zero.
pub proof fn law_shade_in_range(edges: Seq<i64>, steps: nat, value: i64)
    requires
        steps >= 1,
    ensures
        shade(edges, steps, value) <= steps,
        (shade(edges, steps, value) == 0) <==> value <= 0,
{
}

/// More messages never land on a paler shade.
pub proof fn law_shade_monotone(edges: Seq<i64>, steps: nat, a: i64, b: i64)
    requires
        a <= b,
    ensures
        shade(edges, steps, a) <= shade(edges, steps, b),
{
    lemma_reached_monotone(edges, a, b);
}

/// A silent value is painted the track, and nothing else is.
pub proof fn law_track_only_for_silence(step: nat)
    ensures
        (shade_var(step) == "var(--track)"@) <==> step == 0,
{
    reveal_strlit("var(--track)");
    reveal_strlit("var(--r");
    if step != 0 {
        let s = "var(--r"@ + dec(step) + ")"@;
        assert(s[6] == 'r');
        assert("var(--track)"@[6] == 't');
    }
}

/// Without cut points the key says nothing; with them it always says something.
pub proof fn law_caption_empty_iff_no_edges(edges: Seq<i64>, top: i64, unit: Seq<char>)
    ensures
        (caption_spec(edges, top, unit).len() == 0) <==> edges.len() == 0,
{
    reveal_strlit("Five shades, one per fifth of the range actually used; the cut points are ");
}

proof fn lemma_dedup_strict(s: Seq<i64>)
    requires
        is_ascending(s),
    ensures
        strictly_increasing(dedup(s)),
    decreases s.len(),
{
    lemma_dedup_ascending(s);
    if s.len() > 1 {
        let p = s.drop_last();
        lemma_dedup_strict(p);
        lemma_dedup_ascending(p);
        let d = dedup(p);
        if s.last() != s[s.len() - 2] {
            assert(d.last() == p.last());
            assert(p.last() <= s.last());
            let e = d.push(s.last());
            assert forall|i: int, j: int| 0 <= i < j < e.len() implies e[i] < e[j] by {
                if j == e.len() - 1 {
                    assert(d[i] <= d.last());
                }
            }
        }
    }
}

proof fn lemma_contains_through_multiset(a: Seq<i64>, b: Seq<i64>, x: i64)
    requires
        a.to_multiset() == b.to_multiset(),
        a.contains(x),
    ensures
        b.contains(x),
{
    assert(a.to_multiset().count(x) > 0);
}

proof fn lemma_positive_members(values: Seq<i64>, x: i64)
    requires
        ordered_of(values).contains(x),
    ensures
        values.contains(x),
        x > 0,
{
    crate::order::lemma_ascending(positive(values));
    lemma_contains_through_multiset(ordered_of(values), positive(values), x);
    let k = choose|k: int| 0 <= k < positive(values).len() && positive(values)[k] == x;
    values.lemma_filter_pred(is_positive(), k);
    assert(values.filter(is_positive()).contains(x));
    values.lemma_filter_contains_rev(is_positive(), x);
}

proof fn lemma_cuts_members(source: Seq<i64>, steps: nat)
    requires
        is_ascending(source),
        source.len() > 0,
        steps >= 1,
    ensures
        strictly_increasing(cuts(source, steps)),
        forall|k: int| 0 <= k < cuts(source, steps).len() ==> source.contains(#[trigger] cuts(source, steps)[k]),
        forall|k: int| 0 <= k < cuts(source, steps).len() ==> #[trigger] cuts(source, steps)[k] > source[0],
        cuts(source, steps).len() <= steps - 1,
{
    lemma_picks_ascending(source, steps);
    let p = picks(source, steps);
    lemma_dedup_strict(p);
    lemma_dedup_ascending(p);
    lemma_dedup_len(p);
    let c = raw_cuts(source, steps);
    assert forall|k: int| 0 <= k < c.len() implies source.contains(#[trigger] c[k]) && c[k] >= source[0] by {
        assert(p.contains(c[k]));
        let m = choose|m: int| 0 <= m < p.len() && p[m] == c[k];
        let at = pick_at(source.len() as int, m + 1, steps as int);
        lemma_pick_at_ordered(source.len() as int, m + 1, m + 1, steps as int);
        assert(source[at] == c[k]);
        assert(source[0] <= source[at]);
    }
    let t = cuts(source, steps);
    if c.len() > 0 && c[0] == source[0] {
        assert forall|k: int| 0 <= k < t.len() implies source.contains(#[trigger] t[k]) && t[k] > source[0] by {
            assert(t[k] == c[k + 1]);
            assert(c[0] < c[k + 1]);
        }
    } else {
        assert forall|k: int| 0 <= k < t.len() implies #[trigger] t[k] > source[0] by {
            assert(c[0] >= source[0]);
            if k > 0 {
                assert(c[0] < c[k]);
            }
        }
    }
}

/// The cut points rise strictly, and each one is a positive value the data
/// actually took — a shade never begins at a number nobody reached.
pub proof fn law_edges_are_rising_data_values(values: Seq<i64>, steps: nat)
    requires
        steps >= 1,
    ensures
        strictly_increasing(quantile_edges(ordered_of(values), steps)),
        forall|k: int|
            0 <= k < quantile_edges(ordered_of(values), steps).len() ==> {
                let e = #[trigger] quantile_edges(ordered_of(values), steps)[k];
                values.contains(e) && e > 0
            },
{
    let ordered = ordered_of(values);
    crate::order::lemma_ascending(positive(values));
    if ordered.len() > 0 {
        let distinct = dedup(ordered);
        lemma_dedup_strict(ordered);
        lemma_dedup_ascending(ordered);
        let edges = quantile_edges(ordered, steps);
        if distinct.len() <= steps {
            assert forall|k: int| 0 <= k < edges.len() implies {
                let e = #[trigger] edges[k];
                values.contains(e) && e > 0
            } by {
                assert(edges[k] == distinct[k + 1]);
                lemma_positive_members(values, distinct[k + 1]);
            }
        } else {
            lemma_cuts_members(ordered, steps);
            lemma_cuts_members(distinct, steps);
            assert forall|k: int| 0 <= k < edges.len() implies {
                let e = #[trigger] edges[k];
                values.contains(e) && e > 0
            } by {
                let e = edges[k];
                if edges == cuts(ordered, steps) {
                    assert(ordered.contains(e));
                } else {
                    assert(distinct.contains(e));
                    let m = choose|m: int| 0 <= m < distinct.len() && distinct[m] == e;
                    assert(ordered.contains(distinct[m]));
                }
                lemma_positive_members(values, e);
            }
        }
    }
}

proof fn lemma_reached_strict(edges: Seq<i64>, j: int, v: i64)
    requires
        strictly_increasing(edges),
        0 <= j <= edges.len(),
        forall|i: int| 0 <= i < j ==> edges[i] <= v,
        forall|i: int| j <= i < edges.len() ==> edges[i] > v,
    ensures
        reached(edges, v) == j,
    decreases edges.len(),
{
    if edges.len() > 0 {
        let p = edges.drop_last();
        if j == edges.len() {
            lemma_reached_strict(p, j - 1, v);
        } else {
            lemma_reached_strict(p, j, v);
        }
    }
}

/// When there are no more distinct values than shades, each distinct value
/// gets a shade of its own: the `j`-th smallest lands on step `j + 1`.
pub proof fn law_few_values_one_shade_each(values: Seq<i64>, steps: nat, j: int)
    requires
        steps >= 1,
        dedup(ordered_of(values)).len() <= steps,
        0 <= j < dedup(ordered_of(values)).len(),
    ensures
        shade(quantile_edges(ordered_of(values), steps), steps, dedup(ordered_of(values))[j]) == j + 1,
{
    let ordered = ordered_of(values);
    crate::order::lemma_ascending(positive(values));
    lemma_dedup_strict(ordered);
    lemma_dedup_ascending(ordered);
    lemma_dedup_len(ordered);
    let distinct = dedup(ordered);
    let edges = quantile_edges(ordered, steps);
    assert(ordered.len() > 0);
    assert(edges == distinct.skip(1));
    let v = distinct[j];
    assert(ordered.contains(v));
    lemma_positive_members(values, v);
    assert forall|i: int, k: int| 0 <= i < k < edges.len() implies edges[i] < edges[k] by {
        assert(edges[i] == distinct[i + 1]);
        assert(edges[k] == distinct[k + 1]);
    }
    assert forall|i: int| 0 <= i < j implies edges[i] <= v by {
        assert(edges[i] == distinct[i + 1]);
    }
    assert forall|i: int| j <= i < edges.len() implies edges[i] > v by {
        assert(edges[i] == distinct[i + 1]);
    }
    lemma_reached_strict(edges, j, v);
}

/// `top` is the largest positive value, or zero when there is none.
pub proof fn law_top_is_the_largest(values: Seq<i64>, k: int)
    requires
        0 <= k < values.len(),
        values[k] > 0,
    ensures
        ordered_of(values).len() > 0,
        values[k] <= ordered_of(values).last(),
        values.contains(ordered_of(values).last()),
{
    let ordered = ordered_of(values);
    crate::order::lemma_ascending(positive(values));
    values.lemma_filter_contains(is_positive(), k);
    lemma_contains_through_multiset(positive(values), ordered, values[k]);
    let m = choose|m: int| 0 <= m < ordered.len() && ordered[m] == values[k];
    assert(ordered.contains(ordered[ordered.len() - 1]));
    lemma_positive_members(values, ordered.last());
}

proof fn lemma_dedup_of_strict(s: Seq<i64>)
    requires
        strictly_increasing(s),
    ensures
        dedup(s) == s,
    decreases s.len(),
{
    if s.len() > 1 {
        let p = s.drop_last();
        assert(strictly_increasing(p));
        lemma_dedup_of_strict(p);
        assert(s[s.len() - 2] < s.last());
        assert(p.push(s.last()) =~= s);
    }
}

proof fn lemma_spread_pick(d: int, steps: int, i: int, j: int)
    requires
        d > steps >= 1,
        1 <= i <= j < steps,
    ensures
        pick_at(d, i, steps) == d * i / steps,
        1 <= d * i / steps,
        i < j ==> d * i / steps < d * j / steps,
        d * j / steps < d,
{
    lemma_mul_inequality(1, i, d);
    assert(i * d == d * i) by (nonlinear_arith);
    assert(d * i >= steps);
    lemma_div_is_ordered(steps, d * i, steps);
    vstd::arithmetic::div_mod::lemma_div_by_self(steps);
    assert(d * j < steps * d) by (nonlinear_arith)
        requires
            j < steps,
            d > 0,
    ;
    vstd::arithmetic::div_mod::lemma_multiply_divide_lt(d * j, steps, d);
    assert(d * i < steps * d) by (nonlinear_arith)
        requires
            i < steps,
            d > 0,
    ;
    vstd::arithmetic::div_mod::lemma_multiply_divide_lt(d * i, steps, d);
    if i < j {
        lemma_mul_inequality(i + 1, j, d);
        assert((i + 1) * d == d * i + d) by (nonlinear_arith);
        assert(j * d == d * j) by (nonlinear_arith);
        assert(d * j >= steps + d * i);
        vstd::arithmetic::div_mod::lemma_div_plus_one(d * i, steps);
        lemma_div_is_ordered(steps + d * i, d * j, steps);
    }
}

/// Cutting a list of distinct values always yields `steps - 1` cut points:
/// the quantile positions are at least one apart, and none is the first.
proof fn lemma_distinct_cuts_full(d: Seq<i64>, steps: nat)
    requires
        strictly_increasing(d),
        d.len() > steps >= 1,
    ensures
        cuts(d, steps).len() == steps - 1,
{
    let p = picks(d, steps);
    assert forall|a: int, b: int| 0 <= a < b < p.len() implies p[a] < p[b] by {
        lemma_spread_pick(d.len() as int, steps as int, a + 1, b + 1);
        lemma_spread_pick(d.len() as int, steps as int, b + 1, b + 1);
    }
    assert(is_ascending(d));
    lemma_picks_ascending(d, steps);
    lemma_dedup_of_strict(p);
    if p.len() > 0 {
        lemma_spread_pick(d.len() as int, steps as int, 1, 1);
        assert(p[0] == d[pick_at(d.len() as int, 1, steps as int)]);
        assert(p[0] > d[0]);
    }
}

/// With more distinct values than shades, there are exactly `steps - 1` cut
/// points: no cut is wasted on a repeated value.
pub proof fn law_cut_count(values: Seq<i64>, steps: nat)
    requires
        steps >= 1,
        dedup(ordered_of(values)).len() > steps,
    ensures
        quantile_edges(ordered_of(values), steps).len() == steps - 1,
{
    let ordered = ordered_of(values);
    crate::order::lemma_ascending(positive(values));
    lemma_dedup_len(ordered);
    lemma_dedup_strict(ordered);
    lemma_dedup_ascending(ordered);
    lemma_cuts_members(ordered, steps);
    lemma_distinct_cuts_full(dedup(ordered), steps);
}

/// With more distinct values than shades, every shade of the ramp paints some
/// value the data took: the smallest lands on the first shade, and each cut
/// point on the shade it opens.
pub proof fn law_every_shade_used(values: Seq<i64>, steps: nat, step: nat)
    requires
        steps >= 1,
        dedup(ordered_of(values)).len() > steps,
        1 <= step <= steps,
    ensures
        exists|k: int|
            0 <= k < values.len() && shade(quantile_edges(ordered_of(values), steps), steps, #[trigger] values[k]) == step,
{
    let ordered = ordered_of(values);
    crate::order::lemma_ascending(positive(values));
    lemma_dedup_len(ordered);
    lemma_dedup_strict(ordered);
    lemma_dedup_ascending(ordered);
    let distinct = dedup(ordered);
    lemma_cuts_members(ordered, steps);
    lemma_cuts_members(distinct, steps);
    law_cut_count(values, steps);
    law_edges_are_rising_data_values(values, steps);
    let edges = quantile_edges(ordered, steps);
    assert(distinct[0] == ordered[0]) by {
        assert(distinct.contains(distinct[0]));
        assert(ordered.contains(distinct[0]));
        let m = choose|m: int| 0 <= m < ordered.len() && ordered[m] == distinct[0];
        assert(ordered.contains(ordered[0]));
        assert(ordered[0] <= distinct[0]);
        lemma_dedup_first(ordered);
    }
    assert forall|i: int| 0 <= i < edges.len() implies edges[i] > ordered[0] by {
        if edges == cuts(ordered, steps) {
        } else {
            assert(edges == cuts(distinct, steps));
        }
    }
    let v = if step == 1 { ordered[0] } else { edges[step - 2] };
    if step == 1 {
        assert(ordered.contains(ordered[0]));
        lemma_positive_members(values, ordered[0]);
        lemma_reached_strict(edges, 0, v);
    } else {
        assert(values.contains(v) && v > 0);
        assert forall|i: int| 0 <= i < step - 1 implies edges[i] <= v by {
        }
        assert forall|i: int| step - 1 <= i < edges.len() implies edges[i] > v by {
        }
        lemma_reached_strict(edges, step - 1, v);
    }
    assert(shade(edges, steps, v) == step);
    let k = choose|k: int| 0 <= k < values.len() && values[k] == v;
    assert(shade(edges, steps, values[k]) == step);
}

proof fn lemma_dedup_first(s: Seq<i64>)
    requires
        s.len() > 0,
    ensures
        dedup(s).len() > 0,
        dedup(s)[0] == s[0],
    decreases s.len(),
{
    if s.len() > 1 {
        lemma_dedup_first(s.drop_last());
    }
}

proof fn lemma_positive_count(s: Seq<i64>, x: i64)
    ensures
        positive(s).to_multiset().count(x) == (if x > 0 { s.to_multiset().count(x) } else { 0 }),
    decreases s.len(),
{
    if s.len() > 0 {
        let p = s.drop_last();
        lemma_positive_count(p, x);
        p.lemma_filter_push(s.last(), is_positive());
        assert(p.push(s.last()) =~= s);
    }
}

/// The scale depends only on how often each positive value occurs: the order
/// the values come in, and any zeros or negatives among them, change nothing.
pub proof fn law_edges_ignore_order_and_silence(a: Seq<i64>, b: Seq<i64>, steps: nat)
    requires
        forall|x: i64| x > 0 ==> a.to_multiset().count(x) == b.to_multiset().count(x),
    ensures
        ordered_of(a) == ordered_of(b),
        quantile_edges(ordered_of(a), steps) == quantile_edges(ordered_of(b), steps),
        top_of(a) == top_of(b),
{
    assert forall|x: i64| #[trigger] positive(a).to_multiset().count(x) == positive(b).to_multiset().count(x) by {
        lemma_positive_count(a, x);
        lemma_positive_count(b, x);
    }
    assert(positive(a).to_multiset() =~= positive(b).to_multiset());
    crate::order::lemma_ascending(positive(a));
    crate::order::lemma_ascending(positive(b));
    crate::order::lemma_ascending_unique(ordered_of(a), ordered_of(b));
}

/// There are never more than `steps - 1` cut points; and with no positive
/// value there are none, and the top is zero.
pub proof fn law_edges_bounded(values: Seq<i64>, steps: nat)
    requires
        steps >= 1,
    ensures
        quantile_edges(ordered_of(values), steps).len() <= steps - 1,
        positive(values).len() == 0 ==> quantile_edges(ordered_of(values), steps).len() == 0 && top_of(values) == 0,
{
    let ordered = ordered_of(values);
    crate::order::lemma_ascending(positive(values));
    assert(ordered.len() == ordered.to_multiset().len());
    assert(positive(values).len() == positive(values).to_multiset().len());
    if ordered.len() > 0 {
        lemma_dedup_len(ordered);
        lemma_dedup_strict(ordered);
        lemma_dedup_ascending(ordered);
        lemma_cuts_members(ordered, steps);
        lemma_cuts_members(dedup(ordered), steps);
    }
}

} // verus!
