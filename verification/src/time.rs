//! The shared time axis: days grouped into bars, the bars' labels, and dates
//! as the report prints them.

use vstd::prelude::*;
use chrono::Datelike;

use crate::stats::Count;
use crate::text::{dec, natural, digit_char};

verus! {

// ---------------------------------------------------------------------------
// buckets
// ---------------------------------------------------------------------------

/// One bar of the shared axis: first day, last day, total.
pub type Bucket = (String, String, i64);

/// The sum of a run of counts.
pub open spec fn total(s: Seq<Count>) -> int
    decreases s.len(),
{
    if s.len() == 0 {
        0
    } else {
        total(s.drop_last()) + s.last().n
    }
}

/// Every running total of every group of `per` days fits in an `i64`.
pub open spec fn sums_fit(series: Seq<Count>, per: nat) -> bool {
    forall|start: int, end: int|
        0 <= start <= end <= series.len() && (start as int) % (per as int) == 0 && end - start <= per
            ==> i64::MIN <= #[trigger] total(series.subrange(start, end)) <= i64::MAX
}

/// The days the `b`-th bar covers.
pub open spec fn group(series: Seq<Count>, per: nat, b: int) -> Seq<Count> {
    let start = b * per;
    let end = if start + per < series.len() { start + per } else { series.len() as int };
    series.subrange(start, end)
}

/// How many bars `len` days make at `per` days a bar.
pub open spec fn group_count(len: nat, per: nat) -> nat {
    ((len + per - 1) / (per as int)) as nat
}

proof fn lemma_total_push(s: Seq<Count>, c: Count)
    ensures
        total(s.push(c)) == total(s) + c.n,
{
    assert(s.push(c).drop_last() == s);
}

/// Group a daily series into bars of `per` days.
///
/// The last bar takes whatever days are left. Each bar carries its first and
/// last day and the sum of its days.
pub fn group_days(series: &[Count], per: usize) -> (out: Vec<Bucket>)
    requires
        per >= 1,
        sums_fit(series@, per as nat),
    ensures
        out.len() == group_count(series@.len(), per as nat),
        forall|b: int|
            0 <= b < out.len() ==> {
                let g = group(series@, per as nat, b);
                &&& (#[trigger] out[b]).0@ == g[0].label@
                &&& out[b].1@ == g.last().label@
                &&& out[b].2 == total(g)
            },
{
    let len = series.len();
    let mut out: Vec<Bucket> = Vec::new();
    let mut start: usize = 0;
    let mut b: usize = 0;
    proof {
        let n = group_count(len as nat, per as nat);
        if len == 0 {
            assert(n == 0) by (nonlinear_arith)
                requires
                    per >= 1,
                    n == (len + per - 1) / (per as int),
                    len == 0,
            ;
        } else {
            assert(n >= 1) by (nonlinear_arith)
                requires
                    per >= 1,
                    n == (len + per - 1) / (per as int),
                    len >= 1,
            ;
        }
    }
    while start < len
        invariant
            len == series@.len(),
            per >= 1,
            b <= start,
            sums_fit(series@, per as nat),
            start < len ==> start == b * per,
            start <= len,
            out.len() == b,
            b <= group_count(len as nat, per as nat),
            start < len ==> b < group_count(len as nat, per as nat),
            start >= len ==> b == group_count(len as nat, per as nat),
            forall|k: int|
                0 <= k < b ==> {
                    let g = group(series@, per as nat, k);
                    &&& (#[trigger] out[k]).0@ == g[0].label@
                    &&& out[k].1@ == g.last().label@
                    &&& out[k].2 == total(g)
                },
        decreases len - start,
    {
        let end: usize = if per < len - start { start + per } else { len };
        proof {
            assert((start as int) % (per as int) == 0) by (nonlinear_arith)
                requires
                    start == b * per,
                    per >= 1,
            ;
        }
        let mut sum: i64 = 0;
        let mut i: usize = start;
        while i < end
            invariant
                start < end <= len,
                len == series@.len(),
                end - start <= per,
                (start as int) % (per as int) == 0,
                sums_fit(series@, per as nat),
                start <= i <= end,
                sum == total(series@.subrange(start as int, i as int)),
            decreases end - i,
        {
            proof {
                assert(series@.subrange(start as int, i + 1) == series@.subrange(start as int, i as int).push(series@[i as int]));
                lemma_total_push(series@.subrange(start as int, i as int), series@[i as int]);
                assert(i64::MIN <= total(series@.subrange(start as int, i + 1)) <= i64::MAX);
            }
            sum = sum + series[i].n;
            i = i + 1;
        }
        let ghost g = group(series@, per as nat, b as int);
        proof {
            assert(g == series@.subrange(start as int, end as int));
        }
        out.push((series[start].label.clone(), series[end - 1].label.clone(), sum));
        proof {
            assert(g[0] == series@[start as int]);
            assert(g.last() == series@[end - 1]);
            assert((b + 1) * per == b * per + per) by (nonlinear_arith);
            assert(b + 1 <= end) by (nonlinear_arith)
                requires
                    b <= start,
                    start < end,
            ;
            let n = group_count(len as nat, per as nat);
            if end < len {
                assert(start + per < len);
                assert((b + 1) < n) by (nonlinear_arith)
                    requires
                        b * per + per < len,
                        per >= 1,
                        n == (len + per - 1) / (per as int),
                ;
            } else {
                assert(b + 1 == n) by (nonlinear_arith)
                    requires
                        b * per < len,
                        b * per + per >= len,
                        per >= 1,
                        n == (len + per - 1) / (per as int),
                ;
            }
        }
        start = end;
        b = b + 1;
    }
    proof {
        if len == 0 {
            assert(group_count(0, per as nat) == 0) by (nonlinear_arith)
                requires
                    per >= 1,
            ;
        }
    }
    out
}

/// A bar's tooltip label: the day, or the span it covers.
pub open spec fn bucket_label_spec(first: Seq<char>, last: Seq<char>) -> Seq<char> {
    if first == last {
        first
    } else {
        first + " to "@ + last
    }
}

/// A bar's tooltip label: the day, or the span it covers.
pub fn bucket_label(first: &String, last: &String) -> (out: String)
    ensures
        out@ == bucket_label_spec(first@, last@),
{
    if *first == *last {
        first.clone()
    } else {
        let mut out = first.clone();
        out.append(" to ");
        out.append(last.as_str());
        out
    }
}

/// Every bar's label, for the shared axis.
///
/// The compact presence rows leave these out of their cells; they are written
/// into the document once and every row's tooltip is composed from them.
pub fn bucket_labels(buckets: &Vec<Bucket>) -> (out: Vec<String>)
    ensures
        out.len() == buckets.len(),
        forall|i: int|
            0 <= i < out.len() ==> (#[trigger] out[i])@ == bucket_label_spec(buckets[i].0@, buckets[i].1@),
{
    let mut out: Vec<String> = Vec::new();
    let mut i: usize = 0;
    while i < buckets.len()
        invariant
            i <= buckets.len(),
            out.len() == i,
            forall|k: int|
                0 <= k < i ==> (#[trigger] out[k])@ == bucket_label_spec(buckets[k].0@, buckets[k].1@),
        decreases buckets.len() - i,
    {
        out.push(bucket_label(&buckets[i].0, &buckets[i].1));
        i = i + 1;
    }
    out
}

// ---------------------------------------------------------------------------
// dates
// ---------------------------------------------------------------------------

/// The three-letter English month, as `strftime("%b")` gives it.
pub open spec fn month_name(month: int) -> Seq<char> {
    if month <= 1 {
        "Jan"@
    } else if month == 2 {
        "Feb"@
    } else if month == 3 {
        "Mar"@
    } else if month == 4 {
        "Apr"@
    } else if month == 5 {
        "May"@
    } else if month == 6 {
        "Jun"@
    } else if month == 7 {
        "Jul"@
    } else if month == 8 {
        "Aug"@
    } else if month == 9 {
        "Sep"@
    } else if month == 10 {
        "Oct"@
    } else if month == 11 {
        "Nov"@
    } else {
        "Dec"@
    }
}

/// The three-letter month, in English. Past December reads as December.
pub fn month_abbrev(month: u32) -> (out: &'static str)
    requires
        month >= 1,
    ensures
        out@ == month_name(month as int),
{
    if month == 1 {
        "Jan"
    } else if month == 2 {
        "Feb"
    } else if month == 3 {
        "Mar"
    } else if month == 4 {
        "Apr"
    } else if month == 5 {
        "May"
    } else if month == 6 {
        "Jun"
    } else if month == 7 {
        "Jul"
    } else if month == 8 {
        "Aug"
    } else if month == 9 {
        "Sep"
    } else if month == 10 {
        "Oct"
    } else if month == 11 {
        "Nov"
    } else {
        "Dec"
    }
}

/// What `NaiveDate::parse_from_str(text, "%Y-%m-%d")` reads out of `text`, as
/// year, month and day.
pub uninterp spec fn iso_date(text: Seq<char>) -> Option<(int, int, int)>;

/// A leap year of the proleptic Gregorian calendar.
pub open spec fn leap_year(y: int) -> bool {
    (y % 4 == 0 && y % 100 != 0) || y % 400 == 0
}

/// How many days the month has.
pub open spec fn days_in_month(y: int, m: int) -> int {
    if m == 2 {
        if leap_year(y) { 29 } else { 28 }
    } else if m == 4 || m == 6 || m == 9 || m == 11 {
        30
    } else {
        31
    }
}

/// A day `chrono::NaiveDate` can hold: a real calendar day, in its range of years.
pub open spec fn real_day(y: int, m: int, d: int) -> bool {
    -262143 <= y <= 262142 && 1 <= m <= 12 && 1 <= d <= days_in_month(y, m)
}

/// `chrono::NaiveDate::parse_from_str` with the ISO day format.
///
/// Claims that the answer is a function of the text, and that a date it
/// reads is one a `NaiveDate` can hold: a real calendar day in its range of
/// years. Which texts it accepts is left to chrono.
#[verifier::external_body]
pub(crate) fn parse_iso_date(text: &str) -> (out: Option<(i32, u32, u32)>)
    ensures
        match out {
            Some((y, m, d)) => iso_date(text@) == Some((y as int, m as int, d as int)) && real_day(
                y as int,
                m as int,
                d as int,
            ),
            None => iso_date(text@) is None,
        },
{
    match chrono::NaiveDate::parse_from_str(text, "%Y-%m-%d") {
        Ok(day) => Some((day.year(), day.month(), day.day())),
        Err(_) => None,
    }
}

/// A number zero-padded to at least `width` digits.
pub open spec fn padded(n: nat, width: nat) -> Seq<char>
    decreases width,
{
    if dec(n).len() >= width || width == 0 {
        dec(n)
    } else {
        seq!['0'] + padded(n, (width - 1) as nat)
    }
}

/// `%Y`: the year in at least four digits, signed outside 0 to 9999.
pub open spec fn year_text(y: int) -> Seq<char> {
    if 0 <= y <= 9999 {
        padded(y as nat, 4)
    } else if y < 0 {
        seq!['-'] + padded((-y) as nat, 4)
    } else {
        seq!['+'] + padded(y as nat, 4)
    }
}

/// `5 Sep 2025`: the day without a leading zero, the short month, the year.
pub open spec fn date_text(y: int, m: int, d: int) -> Seq<char> {
    dec(d as nat) + " "@ + month_name(m) + " "@ + year_text(y)
}

pub(crate) fn push_padded(out: &mut String, n: u64, width: usize)
    ensures
        final(out)@ == old(out)@ + padded(n as nat, width as nat),
    decreases width,
{
    let digits = natural(n);
    let count = crate::text::char_count(&digits);
    if count >= width || width == 0 {
        out.append(digits.as_str());
    } else {
        out.push('0');
        let ghost mid = out@;
        push_padded(out, n, width - 1);
        proof {
            assert(out@ =~= old(out)@ + (seq!['0'] + padded(n as nat, (width - 1) as nat)));
        }
    }
}

/// A day as the report prints it: `5 Sep 2025`.
pub fn format_date(year: i32, month: u32, day: u32) -> (out: String)
    requires
        1 <= month <= 12,
    ensures
        out@ == date_text(year as int, month as int, day as int),
{
    let mut out = natural(day as u64);
    out.append(" ");
    out.append(month_abbrev(month));
    out.append(" ");
    if 0 <= year && year <= 9999 {
        push_padded(&mut out, year as u64, 4);
    } else if year < 0 {
        out.push('-');
        let magnitude = (-(year as i64)) as u64;
        push_padded(&mut out, magnitude, 4);
    } else {
        out.push('+');
        push_padded(&mut out, year as u64, 4);
    }
    proof {
        assert(out@ =~= date_text(year as int, month as int, day as int));
    }
    out
}

/// `2025-09-05` or `2025-09-05T14:30:00` read as the day it names, if it names one.
pub open spec fn pretty_date_spec(iso: Seq<char>) -> Seq<char> {
    match iso_date(iso.take(if iso.len() < 10 { iso.len() as int } else { 10 })) {
        Some((y, m, d)) => date_text(y, m, d),
        None => iso,
    }
}

/// A text whose first ten characters name no day comes back exactly as it
/// was: one malformed timestamp must not cost the report, nor be rewritten.
pub proof fn law_unreadable_date_is_unchanged(iso: Seq<char>)
    requires
        iso_date(iso.take(if iso.len() < 10 { iso.len() as int } else { 10 })) is None,
    ensures
        pretty_date_spec(iso) == iso,
{
}

/// `2025-09-05` or `2025-09-05T14:30:00` -> `5 Sep 2025`.
///
/// Anything it cannot parse comes back unchanged: one malformed timestamp in
/// one row must not cost the whole report.
pub fn pretty_date(iso: &str) -> (out: String)
    ensures
        out@ == pretty_date_spec(iso@),
{
    let head = crate::text::first_chars(iso, 10);
    match parse_iso_date(head.as_str()) {
        Some((y, m, d)) => format_date(y, m, d),
        None => String::from_str(iso),
    }
}

} // verus!

verus! {

/// The totals of the first `k` bars, added up.
pub open spec fn bars_total(series: Seq<Count>, per: nat, k: int) -> int
    decreases k,
{
    if k <= 0 {
        0
    } else {
        bars_total(series, per, k - 1) + total(group(series, per, k - 1))
    }
}

proof fn lemma_total_concat(a: Seq<Count>, b: Seq<Count>)
    ensures
        total(a + b) == total(a) + total(b),
    decreases b.len(),
{
    if b.len() == 0 {
        assert(a + b =~= a);
    } else {
        lemma_total_concat(a, b.drop_last());
        assert((a + b).drop_last() =~= a + b.drop_last());
    }
}

proof fn lemma_bars_prefix(series: Seq<Count>, per: nat, k: int)
    requires
        per >= 1,
        0 <= k,
        k * per <= series.len(),
    ensures
        bars_total(series, per, k) == total(series.take(k * per)),
    decreases k,
{
    if k == 0 {
        assert(k * per == 0) by (nonlinear_arith)
            requires
                k == 0,
        ;
        assert(series.take(0) =~= Seq::<Count>::empty());
    } else {
        assert((k - 1) * per == k * per - per) by (nonlinear_arith);
        lemma_bars_prefix(series, per, k - 1);
        let start = (k - 1) * per;
        assert(start + per == k * per);
        let g = group(series, per, k - 1);
        assert(g =~= series.subrange(start, k * per));
        assert(series.take(k * per) =~= series.take(start) + g);
        lemma_total_concat(series.take(start), g);
        assert(bars_total(series, per, k) == bars_total(series, per, k - 1) + total(g));
    }
}

/// Grouping keeps every message: the bars' totals add up to the total of the
/// days they were made from, however many days a bar holds.
pub proof fn law_bars_keep_the_total(series: Seq<Count>, per: nat)
    requires
        per >= 1,
    ensures
        bars_total(series, per, group_count(series.len(), per) as int) == total(series),
{
    let len = series.len() as int;
    let n = group_count(series.len(), per) as int;
    let q = len / (per as int);
    let r = len % (per as int);
    assert(len == q * per + r && 0 <= r < per) by (nonlinear_arith)
        requires
            per >= 1,
            q == len / (per as int),
            r == len % (per as int),
            len >= 0,
    ;
    assert(q >= 0) by (nonlinear_arith)
        requires
            per >= 1,
            q == len / (per as int),
            len >= 0,
    ;
    lemma_bars_prefix(series, per, q);
    if r == 0 {
        assert(n == q) by (nonlinear_arith)
            requires
                per >= 1,
                len == q * per,
                n == (len + per - 1) / (per as int),
        ;
        assert(series.take(q * per) =~= series);
    } else {
        assert(n == q + 1) by (nonlinear_arith)
            requires
                per >= 1,
                len == q * per + r,
                0 < r < per,
                n == (len + per - 1) / (per as int),
        ;
        assert(q * per + per > len);
        assert(series =~= series.take(q * per) + group(series, per, q));
        lemma_total_concat(series.take(q * per), group(series, per, q));
    }
}

} // verus!

verus! {

/// The month's full name, in English.
pub open spec fn full_month(month: int) -> Seq<char> {
    if month <= 1 {
        "January"@
    } else if month == 2 {
        "February"@
    } else if month == 3 {
        "March"@
    } else if month == 4 {
        "April"@
    } else if month == 5 {
        "May"@
    } else if month == 6 {
        "June"@
    } else if month == 7 {
        "July"@
    } else if month == 8 {
        "August"@
    } else if month == 9 {
        "September"@
    } else if month == 10 {
        "October"@
    } else if month == 11 {
        "November"@
    } else {
        "December"@
    }
}

/// A day as the notes section stamps it: `5 September 2025`.
pub open spec fn stamp_spec(y: int, m: int, d: int) -> Seq<char> {
    dec(d as nat) + " "@ + full_month(m) + " "@ + year_text(y)
}

/// A day as the notes section stamps it: the day without a leading zero,
/// the month in full, the year.
pub fn stamp_text(year: i32, month: u32, day: u32) -> (out: String)
    ensures
        out@ == stamp_spec(year as int, month as int, day as int),
{
    let mut out = natural(day as u64);
    out.append(" ");
    out.append(
        if month <= 1 {
            "January"
        } else if month == 2 {
            "February"
        } else if month == 3 {
            "March"
        } else if month == 4 {
            "April"
        } else if month == 5 {
            "May"
        } else if month == 6 {
            "June"
        } else if month == 7 {
            "July"
        } else if month == 8 {
            "August"
        } else if month == 9 {
            "September"
        } else if month == 10 {
            "October"
        } else if month == 11 {
            "November"
        } else {
            "December"
        },
    );
    out.append(" ");
    if 0 <= year && year <= 9999 {
        push_padded(&mut out, year as u64, 4);
    } else if year < 0 {
        out.push('-');
        let magnitude = (-(year as i64)) as u64;
        push_padded(&mut out, magnitude, 4);
    } else {
        out.push('+');
        push_padded(&mut out, year as u64, 4);
    }
    proof {
        assert(out@ =~= stamp_spec(year as int, month as int, day as int));
    }
    out
}

} // verus!
