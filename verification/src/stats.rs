//! The labelled counts the report is drawn from, and the few conversions the
//! writer needs that reading a field cannot give it.

use vstd::prelude::*;

use crate::rank::{lemma_text_lt_irreflexive, lemma_text_lt_total, lemma_text_lt_transitive, text_less, text_lt};
use crate::text::{chars_of, decimal, dec, digit_char, signed_dec, unsigned_abs};

verus! {

/// One labelled count, such as a day and the messages that landed on it.
#[derive(Debug, Clone, PartialEq)]
pub struct Count {
    pub label: String,
    pub n: i64,
}

impl Count {
    pub fn new(label: &str, n: i64) -> (c: Self)
        ensures
            c.label@ == label@,
            c.n == n,
    {
        Count { label: String::from_str(label), n }
    }
}

/// A `(label, count)` pair is a count.
impl From<(String, i64)> for Count {
    fn from(pair: (String, i64)) -> (c: Self) {
        Count { label: pair.0, n: pair.1 }
    }
}

impl vstd::std_specs::convert::FromSpecImpl<(String, i64)> for Count {
    open spec fn obeys_from_spec() -> bool {
        true
    }

    open spec fn from_spec(pair: (String, i64)) -> Self {
        Count { label: pair.0, n: pair.1 }
    }
}

/// A count is a `(label, count)` pair.
impl From<Count> for (String, i64) {
    fn from(c: Count) -> (pair: Self) {
        (c.label, c.n)
    }
}

impl vstd::std_specs::convert::FromSpecImpl<Count> for (String, i64) {
    open spec fn obeys_from_spec() -> bool {
        true
    }

    open spec fn from_spec(c: Count) -> Self {
        (c.label, c.n)
    }
}

/// A figure that is a number in most rows and a piece of text in one.
///
/// "Largest file" reports `1.8 MB`; every other record reports a count.
#[derive(Debug, Clone, PartialEq)]
pub enum Figure {
    Count(i64),
    Text(String),
}

/// What a figure prints as.
pub open spec fn figure_text(f: Figure) -> Seq<char> {
    match f {
        Figure::Count(n) => signed_dec(n as int),
        Figure::Text(t) => t@,
    }
}

impl Figure {
    /// How the report prints it: a count as plain decimal, a text as written.
    pub fn display(&self) -> (out: String)
        ensures
            out@ == figure_text(*self),
    {
        match self {
            Figure::Count(n) => decimal(*n),
            Figure::Text(text) => text.clone(),
        }
    }

    /// The number, when the figure is one.
    pub fn as_i64(&self) -> (out: Option<i64>)
        ensures
            out == (match *self {
                Figure::Count(n) => Some(n),
                Figure::Text(_) => None,
            }),
    {
        match self {
            Figure::Count(n) => Some(*n),
            Figure::Text(_) => None,
        }
    }
}

impl Default for Figure {
    fn default() -> (f: Self)
        ensures
            f == Figure::Count(0),
    {
        Figure::Count(0)
    }
}

// ---------------------------------------------------------------------------
// sizes
// ---------------------------------------------------------------------------

/// `t` tenths written with one decimal: `18` is `1.8`.
pub open spec fn tenths_text(t: nat) -> Seq<char> {
    dec(t / 10) + seq!['.', digit_char(t % 10)]
}

pub open spec fn kib() -> int {
    1024
}

pub open spec fn mib() -> int {
    1048576
}

pub open spec fn gib() -> int {
    1073741824
}

/// A byte count in the largest unit under 1024 of it, truncated to a tenth.
pub open spec fn human_bytes_spec(size: int) -> Seq<char> {
    if size < kib() {
        signed_dec(size) + " B"@
    } else if size < mib() {
        tenths_text((size * 10 / kib()) as nat) + " KB"@
    } else if size < gib() {
        tenths_text((size * 10 / mib()) as nat) + " MB"@
    } else {
        tenths_text((size * 10 / gib()) as nat) + " GB"@
    }
}

fn tenths(t: u64) -> (out: String)
    ensures
        out@ == tenths_text(t as nat),
{
    let mut out = crate::text::natural(t / 10);
    out.push('.');
    out.push(((48 + t % 10) as u8) as char);
    proof {
        assert(out@ =~= tenths_text(t as nat));
    }
    out
}

/// Truncating, like Desktop's own writer — 1,940,744 B is `1.8 MB`.
pub fn human_bytes(size: i64) -> (out: String)
    ensures
        out@ == human_bytes_spec(size as int),
{
    if size < 1024 {
        let mut out = decimal(size);
        out.append(" B");
        return out;
    }
    let wide = size as i128 * 10;
    let (t, unit) = if size < 1024 * 1024 {
        ((wide / 1024) as u64, " KB")
    } else if size < 1024 * 1024 * 1024 {
        ((wide / (1024 * 1024)) as u64, " MB")
    } else {
        ((wide / (1024 * 1024 * 1024)) as u64, " GB")
    };
    let mut out = tenths(t);
    out.append(unit);
    out
}

// ---------------------------------------------------------------------------
// sparse series
// ---------------------------------------------------------------------------

/// A sparse `{day: count}` series, one per person or per topic.
///
/// Sparse rather than dense because the report draws each of these as a row on
/// the same axis as the whole-archive ribbon and densifies against that axis at
/// draw time. Each label appears at most once, and the labels are kept in
/// ascending code-point order, the order an ordered map walks them in.
pub struct Sparse {
    entries: Vec<Count>,
}

/// The labels of a list of counts.
pub open spec fn labels_of(entries: Seq<Count>) -> Seq<Seq<char>> {
    entries.map_values(|c: Count| c.label@)
}

/// The counts of a list of counts.
pub open spec fn counts_of(entries: Seq<Count>) -> Seq<i64> {
    entries.map_values(|c: Count| c.n)
}

/// Labels strictly rising in code-point order.
pub open spec fn labels_rising(entries: Seq<Count>) -> bool {
    forall|i: int, j: int| 0 <= i < j < entries.len() ==> text_lt(#[trigger] entries[i].label@, #[trigger] entries[j].label@)
}

/// The count filed under `label`, the last one written winning.
pub open spec fn lookup(entries: Seq<Count>, label: Seq<char>) -> Option<i64>
    decreases entries.len(),
{
    if entries.len() == 0 {
        None
    } else if entries.last().label@ == label {
        Some(entries.last().n)
    } else {
        lookup(entries.drop_last(), label)
    }
}

impl Sparse {
    /// Labels rising, so each at most once.
    pub closed spec fn wf(&self) -> bool {
        labels_rising(self.entries@)
    }

    /// The `(label, count)` pairs, labels ascending.
    pub closed spec fn entries(&self) -> Seq<Count> {
        self.entries@
    }

    /// The count filed under `label`.
    pub open spec fn get_spec(&self, label: Seq<char>) -> Option<i64> {
        lookup(self.entries(), label)
    }

    /// The counts, labels ascending.
    pub open spec fn counts(&self) -> Seq<i64> {
        counts_of(self.entries())
    }

    pub fn new() -> (s: Self)
        ensures
            s.wf(),
            labels_rising(s.entries()),
            s.entries().len() == 0,
            forall|label: Seq<char>| s.get_spec(label) is None,
    {
        Sparse { entries: Vec::new() }
    }

    fn find(&self, label: &String) -> (at: Option<usize>)
        ensures
            match at {
                Some(i) => i < self.entries().len() && self.entries()[i as int].label@ == label@
                    && forall|j: int| i < j < self.entries().len() ==> self.entries()[j].label@ != label@,
                None => forall|j: int| 0 <= j < self.entries().len() ==> self.entries()[j].label@ != label@,
            },
    {
        let mut i = self.entries.len();
        while i > 0
            invariant
                i <= self.entries.len(),
                forall|j: int| i <= j < self.entries.len() ==> self.entries@[j].label@ != label@,
            decreases i,
        {
            if self.entries[i - 1].label == *label {
                return Some(i - 1);
            }
            i = i - 1;
        }
        None
    }

    /// The count filed under `label`, if any.
    pub fn get(&self, label: &String) -> (n: Option<i64>)
        ensures
            n == self.get_spec(label@),
    {
        let at = self.find(label);
        proof {
            lemma_lookup_from_end(self.entries(), label@, at);
        }
        match at {
            Some(i) => Some(self.entries[i].n),
            None => None,
        }
    }

    /// Files `n` under `label`, replacing what was there; the labels stay in
    /// ascending order.
    pub fn insert(&mut self, label: String, n: i64)
        requires
            old(self).wf(),
        ensures
            final(self).wf(),
            labels_rising(final(self).entries()),
            forall|k: Seq<char>| #[trigger] final(self).get_spec(k) == if k == label@ {
                Some(n)
            } else {
                old(self).get_spec(k)
            },
            forall|k: Seq<char>|
                #[trigger] labels_of(final(self).entries()).contains(k) <==> (k == label@
                    || labels_of(old(self).entries()).contains(k)),
    {
        let ghost before = self.entries@;
        let ghost l = label@;
        let wanted = chars_of(label.as_str());
        let len = self.entries.len();
        let mut p: usize = 0;
        let mut looking = true;
        while looking && p < len
            invariant
                len == self.entries.len(),
                self.entries@ == before,
                wanted@ == l,
                p <= len,
                forall|j: int| 0 <= j < p ==> text_lt(#[trigger] before[j].label@, l),
                !looking ==> p < len && !text_lt(before[p as int].label@, l),
            decreases len - p + if looking { 1int } else { 0int },
        {
            let here = chars_of(self.entries[p].label.as_str());
            if text_less(&here, &wanted) {
                p = p + 1;
            } else {
                looking = false;
            }
        }
        proof {
            lemma_rising_distinct(before);
        }
        if p < len && self.entries[p].label == label {
            self.entries.set(p, Count { label, n });
            proof {
                assert(labels_of(self.entries@) =~= labels_of(before));
                assert(labels_of(before)[p as int] == l);
                assert(labels_of(before).contains(l));
                assert forall|a: int, b: int| 0 <= a < b < self.entries@.len() implies text_lt(
                    #[trigger] self.entries@[a].label@,
                    #[trigger] self.entries@[b].label@,
                ) by {
                    assert(labels_of(self.entries@)[a] == labels_of(before)[a]);
                    assert(labels_of(self.entries@)[b] == labels_of(before)[b]);
                }
                assert forall|k: Seq<char>| #[trigger] lookup(self.entries@, k) == if k == l {
                    Some(n)
                } else {
                    lookup(before, k)
                } by {
                    lemma_lookup_update(before, self.entries@, p as int, l, n, k);
                }
            }
        } else {
            proof {
                if p < len {
                    lemma_text_lt_total(before[p as int].label@, l);
                    assert forall|j: int| p <= j < len implies text_lt(l, #[trigger] before[j].label@) by {
                        if j > p {
                            lemma_text_lt_transitive(l, before[p as int].label@, before[j].label@);
                        }
                    }
                }
            }
            self.entries.insert(p, Count { label, n });
            proof {
                let after = self.entries@;
                assert(after == before.insert(p as int, after[p as int]));
                assert forall|a: int, b: int| 0 <= a < b < after.len() implies text_lt(
                    #[trigger] after[a].label@,
                    #[trigger] after[b].label@,
                ) by {
                    if b < p {
                    } else if b == p {
                    } else if a < p {
                        lemma_text_lt_transitive(after[a].label@, l, after[b].label@);
                    } else if a == p {
                    } else {
                        assert(after[a] == before[a - 1]);
                        assert(after[b] == before[b - 1]);
                    }
                }
                lemma_rising_distinct(after);
                assert forall|k: Seq<char>| #[trigger] lookup(after, k) == if k == l {
                    Some(n)
                } else {
                    lookup(before, k)
                } by {
                    if k == l {
                        lemma_lookup_at(after, p as int);
                    } else if exists|j: int| 0 <= j < before.len() && #[trigger] before[j].label@ == k {
                        let j = choose|j: int| 0 <= j < before.len() && #[trigger] before[j].label@ == k;
                        lemma_lookup_at(before, j);
                        let at = if j < p { j } else { j + 1 };
                        assert(after[at] == before[j]);
                        lemma_lookup_at(after, at);
                    } else {
                        lemma_lookup_absent(before, k);
                        assert forall|j: int| 0 <= j < after.len() implies #[trigger] after[j].label@ != k by {
                            if j < p {
                                assert(after[j] == before[j]);
                            } else if j > p {
                                assert(after[j] == before[j - 1]);
                            }
                        }
                        lemma_lookup_absent(after, k);
                    }
                }
                assert forall|k: Seq<char>| #[trigger] labels_of(after).contains(k) <==> (k == l
                    || labels_of(before).contains(k)) by {
                    if labels_of(after).contains(k) {
                        let j = choose|j: int| 0 <= j < after.len() && labels_of(after)[j] == k;
                        if j < p {
                            assert(labels_of(before)[j] == k);
                        } else if j > p {
                            assert(labels_of(before)[j - 1] == k);
                        }
                    }
                    if k == l {
                        assert(labels_of(after)[p as int] == k);
                    } else if labels_of(before).contains(k) {
                        let j = choose|j: int| 0 <= j < before.len() && labels_of(before)[j] == k;
                        if j < p {
                            assert(labels_of(after)[j] == k);
                        } else {
                            assert(labels_of(after)[j + 1] == k);
                        }
                    }
                }
            }
        }
    }
}

proof fn lemma_rising_distinct(entries: Seq<Count>)
    requires
        labels_rising(entries),
    ensures
        labels_of(entries).no_duplicates(),
{
    assert forall|a: int, b: int| 0 <= a < labels_of(entries).len() && 0 <= b < labels_of(entries).len() && a != b
        implies labels_of(entries)[a] != labels_of(entries)[b] by {
        if a < b {
            lemma_text_lt_irreflexive(entries[a].label@);
        } else {
            lemma_text_lt_irreflexive(entries[b].label@);
        }
    }
}

proof fn lemma_lookup_at(entries: Seq<Count>, i: int)
    requires
        labels_of(entries).no_duplicates(),
        0 <= i < entries.len(),
    ensures
        lookup(entries, entries[i].label@) == Some(entries[i].n),
    decreases entries.len(),
{
    let last = entries.len() - 1;
    if i < last {
        assert(labels_of(entries)[i] != labels_of(entries)[last]);
        assert(labels_of(entries.drop_last()) =~= labels_of(entries).drop_last());
        lemma_lookup_at(entries.drop_last(), i);
    }
}

proof fn lemma_lookup_absent(entries: Seq<Count>, k: Seq<char>)
    ensures
        (forall|j: int| 0 <= j < entries.len() ==> #[trigger] entries[j].label@ != k) ==> lookup(entries, k) is None,
        lookup(entries, k) is None ==> forall|j: int| 0 <= j < entries.len() ==> #[trigger] entries[j].label@ != k,
    decreases entries.len(),
{
    if entries.len() > 0 {
        lemma_lookup_absent(entries.drop_last(), k);
        let p = entries.drop_last();
        assert forall|j: int| 0 <= j < p.len() implies p[j] == entries[j] by {}
    }
}

proof fn lemma_lookup_from_end(entries: Seq<Count>, label: Seq<char>, at: Option<usize>)
    requires
        match at {
            Some(i) => i < entries.len() && entries[i as int].label@ == label
                && forall|j: int| i < j < entries.len() ==> entries[j].label@ != label,
            None => forall|j: int| 0 <= j < entries.len() ==> entries[j].label@ != label,
        },
    ensures
        lookup(entries, label) == match at {
            Some(i) => Some(entries[i as int].n),
            None => None::<i64>,
        },
    decreases entries.len(),
{
    if entries.len() > 0 {
        let last = entries.len() - 1;
        match at {
            Some(i) => {
                if i as int != last {
                    lemma_lookup_from_end(entries.drop_last(), label, at);
                }
            },
            None => {
                lemma_lookup_from_end(entries.drop_last(), label, at);
            },
        }
    }
}

proof fn lemma_lookup_update(before: Seq<Count>, after: Seq<Count>, i: int, l: Seq<char>, n: i64, k: Seq<char>)
    requires
        0 <= i < before.len(),
        after.len() == before.len(),
        before[i].label@ == l,
        after[i].label@ == l,
        after[i].n == n,
        forall|j: int| 0 <= j < before.len() && j != i ==> after[j] == before[j],
        labels_of(before).no_duplicates(),
    ensures
        lookup(after, k) == if k == l {
            Some(n)
        } else {
            lookup(before, k)
        },
    decreases before.len(),
{
    let last = before.len() - 1;
    if i < last {
        assert(labels_of(before)[i] != labels_of(before)[last]);
        assert(labels_of(before.drop_last()) =~= labels_of(before).drop_last());
        lemma_lookup_update(before.drop_last(), after.drop_last(), i, l, n, k);
        assert(after.last() == before.last());
    } else {
        assert(after.drop_last() =~= before.drop_last());
    }
}

/// The count a densified day carries.
pub open spec fn densified(sparse: Option<Sparse>, label: Seq<char>) -> i64 {
    match sparse {
        Some(s) => match s.get_spec(label) {
            Some(n) => n,
            None => 0,
        },
        None => 0,
    }
}

/// A sparse `{day: count}` series, densified against the shared axis.
///
/// Every day of the axis comes back, in the axis's order, carrying the count
/// the series filed under it or zero — a person absent from the branch
/// densifies to a row of silence, not to no row at all.
pub fn densify(sparse: Option<&Sparse>, axis: &[Count]) -> (out: Vec<Count>)
    ensures
        out.len() == axis.len(),
        forall|i: int|
            0 <= i < axis.len() ==> (#[trigger] out[i]).label@ == axis[i].label@ && out[i].n
                == densified(
                match sparse {
                    Some(s) => Some(*s),
                    None => None,
                },
                axis[i].label@,
            ),
{
    let ghost owned = match sparse {
        Some(s) => Some(*s),
        None => None,
    };
    let mut out: Vec<Count> = Vec::new();
    let mut i: usize = 0;
    while i < axis.len()
        invariant
            i <= axis.len(),
            out.len() == i,
            owned == match sparse {
                Some(s) => Some(*s),
                None => None,
            },
            forall|k: int|
                0 <= k < i ==> (#[trigger] out[k]).label@ == axis[k].label@ && out[k].n == densified(
                    owned,
                    axis[k].label@,
                ),
        decreases axis.len() - i,
    {
        let day = &axis[i];
        let n = match sparse {
            Some(counts) => match counts.get(&day.label) {
                Some(n) => n,
                None => 0,
            },
            None => 0,
        };
        out.push(Count { label: day.label.clone(), n });
        i = i + 1;
    }
    out
}

/// Every count of every series, series by series in the order given, and
/// within a series in the order of its labels (ascending, for a series built
/// by `new` and `insert`).
pub open spec fn all_counts(rows: Seq<Sparse>) -> Seq<i64>
    decreases rows.len(),
{
    if rows.len() == 0 {
        Seq::empty()
    } else {
        all_counts(rows.drop_last()) + rows.last().counts()
    }
}

/// Every value in a sparse-by-key branch, for building one shared scale: the
/// series in the order given, each series' counts in ascending label order.
pub fn every_count(branch: &Vec<Sparse>) -> (out: Vec<i64>)
    ensures
        out@ == all_counts(branch@),
{
    let mut out: Vec<i64> = Vec::new();
    let mut r: usize = 0;
    while r < branch.len()
        invariant
            r <= branch.len(),
            out@ == all_counts(branch@.take(r as int)),
        decreases branch.len() - r,
    {
        let row = &branch[r];
        let ghost start = out@;
        let mut k: usize = 0;
        while k < row.entries.len()
            invariant
                k <= row.entries.len(),
                out@ == start + counts_of(row.entries@.take(k as int)),
            decreases row.entries.len() - k,
        {
            out.push(row.entries[k].n);
            proof {
                assert(counts_of(row.entries@.take(k + 1)) =~= counts_of(row.entries@.take(k as int)).push(row.entries@[k as int].n));
            }
            k = k + 1;
        }
        proof {
            assert(row.entries@.take(row.entries.len() as int) == row.entries@);
            assert(branch@.take(r + 1).drop_last() == branch@.take(r as int));
        }
        r = r + 1;
    }
    proof {
        assert(branch@.take(branch.len() as int) == branch@);
    }
    out
}

} // verus!
