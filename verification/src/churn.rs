//! Arrivals and departures, from the two sources that disagree: the member
//! list, which only knows who is still here, and the history, which only
//! announces the joins and removals Telegram posted about.

use vstd::prelude::*;

use crate::text::{natural, thousands, thousands_spec};

verus! {

/// A series added up.
pub open spec fn total_of(s: Seq<i64>) -> int
    decreases s.len(),
{
    if s.len() == 0 {
        0
    } else {
        total_of(s.drop_last()) + s.last()
    }
}

/// Every running total of the series fits in an `i64`.
pub open spec fn totals_fit(s: Seq<i64>) -> bool {
    forall|k: int| 0 <= k <= s.len() ==> i64::MIN <= #[trigger] total_of(s.take(k)) <= i64::MAX
}

/// A series added up.
pub fn series_total(s: &Vec<i64>) -> (t: i64)
    requires
        totals_fit(s@),
    ensures
        t == total_of(s@),
{
    let mut t: i64 = 0;
    let mut i: usize = 0;
    proof {
        assert(s@.take(0) =~= Seq::<i64>::empty());
    }
    while i < s.len()
        invariant
            totals_fit(s@),
            i <= s.len(),
            t == total_of(s@.take(i as int)),
        decreases s.len() - i,
    {
        proof {
            assert(s@.take(i + 1).drop_last() =~= s@.take(i as int));
            assert(i64::MIN <= total_of(s@.take(i + 1)) <= i64::MAX);
        }
        t = t + s[i];
        i = i + 1;
    }
    proof {
        assert(s@.take(s.len() as int) =~= s@);
    }
    t
}

/// How often a month label is printed: every month up to fourteen of them,
/// and past that every `n / 14`-th.
pub open spec fn label_every_spec(n: nat) -> nat {
    if n / 14 >= 1 { n / 14 } else { 1 }
}

/// How often a month label is printed.
pub fn label_every(n: usize) -> (every: usize)
    ensures
        every == label_every_spec(n as nat),
{
    let e = n / 14;
    if e >= 1 { e } else { 1 }
}

/// A month label without its century, `2025-09` read as `25-09`.
pub fn month_short(month: &str) -> (out: String)
    ensures
        out@ == month@.skip(if month@.len() < 2 { month@.len() as int } else { 2 }),
{
    let chars = crate::text::chars_of(month);
    let start: usize = if chars.len() < 2 { chars.len() } else { 2 };
    let mut out = String::new();
    let mut j: usize = start;
    while j < chars.len()
        invariant
            chars@ == month@,
            start <= j <= chars.len(),
            out@ == chars@.subrange(start as int, j as int),
        decreases chars.len() - j,
    {
        out.push(chars[j]);
        proof {
            assert(chars@.subrange(start as int, j + 1) =~= chars@.subrange(start as int, j as int).push(
                chars@[j as int],
            ));
        }
        j = j + 1;
    }
    proof {
        assert(chars@.subrange(start as int, chars.len() as int) =~= chars@.skip(start as int));
    }
    out
}

/// What the section says about arrivals, given the totals of dated joins
/// from the member list, of announced joins and of announced removals.
pub open spec fn churn_note_spec(dated: int, announced: int, leaves: int, roster_dated: i64, roster_size: usize) -> Seq<
    char,
> {
    if dated != 0 {
        "<p class=\"caption\">Arrivals are dated from the member list, which knows only about people who are still in the group: "@
            + thousands_spec(roster_dated as int) + " of "@ + thousands_spec((roster_size as i64) as int)
            + " current members carry a join date. Anyone who has since left is missing from it entirely"@
            + (if leaves != 0 {
            ", though the history announces "@ + thousands_spec(leaves) + " removals."@
        } else {
            "."@
        }) + "</p>"@
    } else {
        "<p class=\"caption\">This export carries no member list, so arrivals cannot be dated"@ + (if leaves
            != 0 || announced != 0 {
            ". The history does announce "@ + thousands_spec(announced) + " joins and "@ + thousands_spec(
                leaves,
            ) + " removals, which is only the ones Telegram posted about."@
        } else {
            ", and the history announces none."@
        }) + "</p>"@
    }
}

/// Arrivals and departures, month by month.
#[derive(Debug, Clone, Default)]
pub struct Arrivals {
    pub roster_joins: Vec<i64>,
    pub announced_joins: Vec<i64>,
    pub announced_leaves: Vec<i64>,
    pub roster_dated: i64,
    pub roster_size: usize,
}

/// What the section says about arrivals: dated from the member list when it
/// has join dates, and otherwise only what the history announced, said as
/// such rather than drawn as "nobody joined".
pub fn churn_note(a: &Arrivals) -> (out: String)
    requires
        totals_fit(a.roster_joins@),
        totals_fit(a.announced_leaves@),
        total_of(a.roster_joins@) == 0 ==> totals_fit(a.announced_joins@),
    ensures
        out@ == churn_note_spec(
            total_of(a.roster_joins@),
            total_of(a.announced_joins@),
            total_of(a.announced_leaves@),
            a.roster_dated,
            a.roster_size,
        ),
{
    let leaves = series_total(&a.announced_leaves);
    let dated = series_total(&a.roster_joins);
    if dated != 0 {
        let mut out = String::from_str(
            "<p class=\"caption\">Arrivals are dated from the member list, which knows only about people who are still in the group: ",
        );
        let x = thousands(a.roster_dated);
        out.append(x.as_str());
        out.append(" of ");
        let y = thousands(a.roster_size as i64);
        out.append(y.as_str());
        out.append(" current members carry a join date. Anyone who has since left is missing from it entirely");
        if leaves != 0 {
            out.append(", though the history announces ");
            let z = thousands(leaves);
            out.append(z.as_str());
            out.append(" removals.");
        } else {
            out.append(".");
        }
        out.append("</p>");
        proof {
            assert(out@ =~= churn_note_spec(
                total_of(a.roster_joins@),
                total_of(a.announced_joins@),
                total_of(a.announced_leaves@),
                a.roster_dated,
                a.roster_size,
            ));
        }
        out
    } else {
        let announced = series_total(&a.announced_joins);
        let mut out = String::from_str(
            "<p class=\"caption\">This export carries no member list, so arrivals cannot be dated",
        );
        if leaves != 0 || announced != 0 {
            out.append(". The history does announce ");
            let p = thousands(announced);
            out.append(p.as_str());
            out.append(" joins and ");
            let q = thousands(leaves);
            out.append(q.as_str());
            out.append(" removals, which is only the ones Telegram posted about.");
        } else {
            out.append(", and the history announces none.");
        }
        out.append("</p>");
        proof {
            assert(out@ =~= churn_note_spec(
                total_of(a.roster_joins@),
                total_of(a.announced_joins@),
                total_of(a.announced_leaves@),
                a.roster_dated,
                a.roster_size,
            ));
        }
        out
    }
}

/// The section's body around its two charts: the people-per-month chart
/// always, the arrivals chart under its own heading only when there is one.
pub open spec fn churn_body_spec(active: Seq<char>, joins: Seq<char>, note: Seq<char>) -> Seq<char> {
    "<h3>People talking each month</h3>"@ + active
        + "<p class=\"caption\">Distinct people who posted at least once that month &#8212; not the size of the group.</p>"@
        + (if joins.len() == 0 { Seq::empty() } else { "<h3>Arrivals</h3>"@ }) + joins + note
}

/// The section's body around its two charts (markup, drawn elsewhere).
pub fn churn_body(active: &str, joins: &str, note: &str) -> (out: String)
    ensures
        out@ == churn_body_spec(active@, joins@, note@),
{
    let mut out = String::from_str("<h3>People talking each month</h3>");
    out.append(active);
    out.append(
        "<p class=\"caption\">Distinct people who posted at least once that month &#8212; not the size of the group.</p>",
    );
    let ghost mid = out@;
    if !joins.is_empty() {
        out.append("<h3>Arrivals</h3>");
    }
    out.append(joins);
    out.append(note);
    proof {
        assert(out@ =~= churn_body_spec(active@, joins@, note@));
    }
    out
}

} // verus!
