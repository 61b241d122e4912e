//! Between people: answer latency by hour, who has gone quiet, and who came
//! back month over month.

use vstd::prelude::*;

use crate::rank::{char_views, law_rank_is_ordered, law_rank_lists_every_row_once, rank, ranked};
use crate::sections::{figure, figure_cells, figures, pair_views, data_view, data_view_spec, head, head_spec, header_views, row_views, short, short_spec, table, table_spec};
use crate::time::{padded, push_padded};
use crate::text::{esc, esc_spec, same_text, thousands, thousands_spec};
use crate::time::{pretty_date, pretty_date_spec};

verus! {

/// The answer medians as drawn: an hour that has not met the floor is drawn
/// as nothing rather than as a short bar, because a median over four replies
/// is not a fast hour and a bar is read as one.
pub open spec fn shown_median(median: i64, count: i64, floor: i64) -> i64 {
    if count >= floor { median } else { 0 }
}

/// The answer medians as drawn, hour by hour.
pub fn answer_shown(medians: &[i64], counts: &[i64], floor: i64) -> (out: Vec<i64>)
    ensures
        out.len() == (if medians.len() < counts.len() { medians.len() } else { counts.len() }),
        forall|h: int|
            0 <= h < out.len() ==> #[trigger] out@[h] == shown_median(medians@[h], counts@[h], floor),
{
    let n = if medians.len() < counts.len() { medians.len() } else { counts.len() };
    let mut out: Vec<i64> = Vec::new();
    let mut h: usize = 0;
    while h < n
        invariant
            n <= medians.len(),
            n <= counts.len(),
            h <= n,
            out.len() == h,
            forall|q: int| 0 <= q < h ==> #[trigger] out@[q] == shown_median(medians@[q], counts@[q], floor),
        decreases n - h,
    {
        out.push(if counts[h] >= floor { medians[h] } else { 0 });
        h = h + 1;
    }
    out
}

/// One person's standing: how long since they last spoke.
#[derive(Debug, Clone, Default)]
pub struct Quiet {
    pub name: String,
    pub messages: i64,
    /// The day they last spoke.
    pub last: String,
    pub dormant_days: i64,
    /// `active`, `fading` or `gone`.
    pub status: String,
}

/// How many rows the quiet list shows.
pub const QUIET_SHOWN: usize = 30;

/// The indices of the first `k` rows that are not active, in order.
pub open spec fn not_active(rows: Seq<Quiet>, k: nat) -> Seq<usize>
    decreases k,
{
    if k == 0 {
        Seq::empty()
    } else if rows[k - 1].status@ != "active"@ {
        not_active(rows, (k - 1) as nat).push((k - 1) as usize)
    } else {
        not_active(rows, (k - 1) as nat)
    }
}

/// Days of silence of the given rows.
pub open spec fn silences(rows: Seq<Quiet>, at: Seq<usize>) -> Seq<i64> {
    at.map_values(|i: usize| rows[i as int].dormant_days)
}

/// As many empty names as rows: the quiet list breaks ties on order alone.
pub open spec fn blank_names(n: nat) -> Seq<Seq<char>> {
    Seq::new(n, |i: int| Seq::<char>::empty())
}

/// Who has gone quiet, longest silence first, ties in the order given, and at
/// most thirty of them. Ranked by the silence rather than by the message
/// count, because that is the one ordering the people table cannot give.
pub open spec fn quiet_order_spec(rows: Seq<Quiet>) -> Seq<usize> {
    let at = not_active(rows, rows.len());
    let order = ranked(silences(rows, at), blank_names(at.len()), at.len());
    let shown = if at.len() < QUIET_SHOWN { at.len() as int } else { QUIET_SHOWN as int };
    order.take(shown).map_values(|j: usize| at[j as int])
}

proof fn lemma_not_active_bound(rows: Seq<Quiet>, k: nat)
    ensures
        not_active(rows, k).len() <= k,
        forall|m: int| 0 <= m < not_active(rows, k).len() ==> #[trigger] not_active(rows, k)[m] < k,
    decreases k,
{
    if k > 0 {
        lemma_not_active_bound(rows, (k - 1) as nat);
    }
}

/// Who has gone quiet, longest silence first, at most thirty.
pub fn quiet_order(rows: &Vec<Quiet>) -> (out: Vec<usize>)
    ensures
        out@ == quiet_order_spec(rows@),
        forall|m: int| 0 <= m < out.len() ==> #[trigger] out@[m] < rows.len(),
{
    let mut at: Vec<usize> = Vec::new();
    let mut days: Vec<i64> = Vec::new();
    let mut names: Vec<Vec<char>> = Vec::new();
    let mut i: usize = 0;
    while i < rows.len()
        invariant
            i <= rows.len(),
            at.len() <= i,
            at@ == not_active(rows@, i as nat),
            days@ == silences(rows@, at@),
            char_views(names@) == blank_names(at.len() as nat),
            names.len() == at.len(),
        decreases rows.len() - i,
    {
        if !same_text(rows[i].status.as_str(), "active") {
            at.push(i);
            days.push(rows[i].dormant_days);
            let ghost before = names@;
            let blank: Vec<char> = Vec::new();
            names.push(blank);
            proof {
                assert(days@ =~= silences(rows@, at@));
                assert forall|q: int| 0 <= q < names.len() implies #[trigger] char_views(names@)[q]
                    == blank_names(at.len() as nat)[q] by {
                    if q < before.len() {
                        assert(names@[q] == before[q]);
                        assert(char_views(before)[q] == blank_names(before.len() as nat)[q]);
                    }
                }
                assert(char_views(names@) =~= blank_names(at.len() as nat));
            }
        }
        i = i + 1;
    }
    let order = rank(&days, &names);
    proof {
        law_rank_lists_every_row_once(days@, char_views(names@), days.len() as nat);
        lemma_not_active_bound(rows@, rows.len() as nat);
    }
    let shown = if at.len() < QUIET_SHOWN { at.len() } else { QUIET_SHOWN };
    let ghost whole = order@.take(shown as int).map_values(|j: usize| at@[j as int]);
    let mut out: Vec<usize> = Vec::new();
    let mut m: usize = 0;
    while m < shown
        invariant
            at@ == not_active(rows@, rows.len() as nat),
            forall|q: int| 0 <= q < at.len() ==> #[trigger] at@[q] < rows.len(),
            order.len() == at.len(),
            shown <= at.len(),
            forall|q: int| 0 <= q < order.len() ==> #[trigger] order@[q] < at.len(),
            whole == order@.take(shown as int).map_values(|j: usize| at@[j as int]),
            m <= shown,
            out@ == whole.take(m as int),
            forall|q: int| 0 <= q < out.len() ==> #[trigger] out@[q] < rows.len(),
        decreases shown - m,
    {
        let j = order[m];
        out.push(at[j]);
        proof {
            assert(out@ =~= whole.take(m + 1));
        }
        m = m + 1;
    }
    proof {
        assert(whole.take(shown as int) =~= whole);
    }
    out
}

/// One row of the quiet list.
pub open spec fn quiet_cells(q: Quiet) -> Seq<Seq<char>> {
    seq![
        short_spec(q.name@, 30),
        thousands_spec(q.messages as int),
        esc_spec(pretty_date_spec(q.last@)),
        thousands_spec(q.dormant_days as int),
        esc_spec(q.status@),
    ]
}

/// The columns of the quiet list.
pub open spec fn quiet_headers() -> Seq<(Seq<char>, bool)> {
    seq![
        ("Person"@, false),
        ("Messages"@, true),
        ("Last seen"@, false),
        ("Days since"@, true),
        (Seq::empty(), false),
    ]
}

/// The quiet list's table, or the sentence saying nobody has gone quiet.
pub open spec fn quiet_table_spec(rows: Seq<Quiet>) -> Seq<char> {
    let order = quiet_order_spec(rows);
    if order.len() == 0 {
        "<p class=\"caption\">Everybody with a message in this archive posted one in its last month.</p>"@
    } else {
        table_spec(quiet_headers(), order.map_values(|i: usize| quiet_cells(rows[i as int])))
    }
}

/// The quiet list's table, or the sentence saying nobody has gone quiet.
pub fn quiet_table(rows: &Vec<Quiet>) -> (out: String)
    ensures
        out@ == quiet_table_spec(rows@),
{
    let order = quiet_order(rows);
    if order.len() == 0 {
        return String::from_str(
            "<p class=\"caption\">Everybody with a message in this archive posted one in its last month.</p>",
        );
    }
    let ghost want = order@.map_values(|i: usize| quiet_cells(rows@[i as int]));
    let mut cells: Vec<Vec<String>> = Vec::new();
    let mut m: usize = 0;
    while m < order.len()
        invariant
            forall|q: int| 0 <= q < order.len() ==> #[trigger] order@[q] < rows.len(),
            want == order@.map_values(|i: usize| quiet_cells(rows@[i as int])),
            m <= order.len(),
            cells.len() == m,
            forall|q: int| 0 <= q < m ==> #[trigger] row_views(cells@)[q] == want[q],
        decreases order.len() - m,
    {
        let q = &rows[order[m]];
        let mut row: Vec<String> = Vec::new();
        row.push(short(q.name.as_str(), 30));
        row.push(thousands(q.messages));
        let d = pretty_date(q.last.as_str());
        row.push(esc(d.as_str()));
        row.push(thousands(q.dormant_days));
        row.push(esc(q.status.as_str()));
        let ghost before = cells@;
        cells.push(row);
        proof {
            assert(row_views(cells@)[m as int] =~= quiet_cells(*q));
            assert forall|p: int| 0 <= p < m + 1 implies #[trigger] row_views(cells@)[p] == want[p] by {
                if p < m {
                    assert(cells@[p] == before[p]);
                    assert(row_views(before)[p] == want[p]);
                }
            }
        }
        m = m + 1;
    }
    let mut headers: Vec<(String, bool)> = Vec::new();
    headers.push((String::from_str("Person"), false));
    headers.push((String::from_str("Messages"), true));
    headers.push((String::from_str("Last seen"), false));
    headers.push((String::from_str("Days since"), true));
    headers.push((String::new(), false));
    proof {
        assert(header_views(headers@) =~= quiet_headers());
        assert(row_views(cells@) =~= want);
    }
    table(&headers, &cells)
}

/// The quiet list under its heading, with the sentence on what it is measured against.
pub open spec fn gone_quiet_spec(rows: Seq<Quiet>, as_of: Seq<char>, active_within: i64, fading_within: i64) -> Seq<
    char,
> {
    "<h3>Gone quiet</h3>"@ + quiet_table_spec(rows) + "<p class=\"caption\">Measured against "@
        + esc_spec(pretty_date_spec(as_of))
        + ", the last day in this archive, not against today &#8212; the same file read a year from now says the same thing. Quiet past "@
        + thousands_spec(active_within as int) + " days, gone past "@ + thousands_spec(
        fading_within as int,
    ) + ".</p></section>"@
}

/// Who has gone quiet, measured against the archive's last day rather than
/// today, so the same file read a year from now says the same thing; the
/// section's close.
pub fn gone_quiet(rows: &Vec<Quiet>, as_of: &str, active_within: i64, fading_within: i64) -> (out: String)
    ensures
        out@ == gone_quiet_spec(rows@, as_of@, active_within, fading_within),
{
    let mut out = String::from_str("<h3>Gone quiet</h3>");
    let t = quiet_table(rows);
    out.append(t.as_str());
    out.append("<p class=\"caption\">Measured against ");
    let d = pretty_date(as_of);
    let e = esc(d.as_str());
    out.append(e.as_str());
    out.append(
        ", the last day in this archive, not against today &#8212; the same file read a year from now says the same thing. Quiet past ",
    );
    let a = thousands(active_within);
    out.append(a.as_str());
    out.append(" days, gone past ");
    let b = thousands(fading_within);
    out.append(b.as_str());
    out.append(".</p></section>");
    proof {
        assert(out@ =~= gone_quiet_spec(rows@, as_of@, active_within, fading_within));
    }
    out
}


/// One month's count from a series, zero past its end.
pub open spec fn month_cell(series: Seq<i64>, at: int) -> Seq<char> {
    thousands_spec(if at < series.len() { series[at] as int } else { 0 })
}

/// Month over month: who spoke, who was new, who came back, who was lost.
#[derive(Debug, Clone, Default)]
pub struct Months {
    pub months: Vec<String>,
    pub active: Vec<i64>,
    pub new: Vec<i64>,
    pub returning: Vec<i64>,
    pub lost: Vec<i64>,
}

/// One row of the month-by-month table.
pub open spec fn month_row(r: Months, at: int) -> Seq<Seq<char>> {
    seq![
        esc_spec(r.months@[at]@),
        month_cell(r.active@, at),
        month_cell(r.new@, at),
        month_cell(r.returning@, at),
        month_cell(r.lost@, at),
    ]
}

fn cell_at(series: &Vec<i64>, at: usize) -> (out: String)
    ensures
        out@ == month_cell(series@, at as int),
{
    thousands(if at < series.len() { series[at] } else { 0 })
}

/// The month-by-month table's rows, one per month; a series shorter than
/// the months reads as zero past its end.
pub fn month_rows(r: &Months) -> (out: Vec<Vec<String>>)
    ensures
        out.len() == r.months.len(),
        forall|at: int| 0 <= at < out.len() ==> #[trigger] row_views(out@)[at] == month_row(*r, at),
{
    let mut out: Vec<Vec<String>> = Vec::new();
    let mut at: usize = 0;
    while at < r.months.len()
        invariant
            at <= r.months.len(),
            out.len() == at,
            forall|q: int| 0 <= q < at ==> #[trigger] row_views(out@)[q] == month_row(*r, q),
        decreases r.months.len() - at,
    {
        let mut row: Vec<String> = Vec::new();
        row.push(esc(r.months[at].as_str()));
        row.push(cell_at(&r.active, at));
        row.push(cell_at(&r.new, at));
        row.push(cell_at(&r.returning, at));
        row.push(cell_at(&r.lost, at));
        let ghost before = out@;
        out.push(row);
        proof {
            assert(row_views(out@)[at as int] =~= month_row(*r, at as int));
            assert forall|q: int| 0 <= q < at + 1 implies #[trigger] row_views(out@)[q] == month_row(*r, q) by {
                if q < at {
                    assert(out@[q] == before[q]);
                    assert(row_views(before)[q] == month_row(*r, q));
                }
            }
        }
        at = at + 1;
    }
    out
}

/// How many bytes UTF-8 spends on a character.
pub open spec fn utf8_len(c: char) -> nat {
    if (c as u32) < 0x80 {
        1
    } else if (c as u32) < 0x800 {
        2
    } else if (c as u32) < 0x10000 {
        3
    } else {
        4
    }
}

/// Byte `n` of the text's UTF-8 falls on a character boundary.
pub open spec fn byte_boundary(s: Seq<char>, n: nat) -> bool
    decreases s.len(),
{
    if n == 0 {
        true
    } else if s.len() == 0 {
        false
    } else {
        utf8_len(s[0]) <= n && byte_boundary(s.drop_first(), (n - utf8_len(s[0])) as nat)
    }
}

/// The text from byte `n` of its UTF-8 on: `&s[n..]`.
pub open spec fn after_byte(s: Seq<char>, n: nat) -> Seq<char>
    decreases s.len(),
{
    if n == 0 || s.len() == 0 {
        s
    } else {
        after_byte(s.drop_first(), (n - utf8_len(s[0])) as nat)
    }
}

fn char_width(c: char) -> (n: usize)
    ensures
        n == utf8_len(c),
{
    let u = c as u32;
    if u < 0x80 {
        1
    } else if u < 0x800 {
        2
    } else if u < 0x10000 {
        3
    } else {
        4
    }
}

/// A month label without its century: `2025-09` becomes `25-09`.
pub fn month_tail(month: &str) -> (out: String)
    requires
        byte_boundary(month@, 2),
    ensures
        out@ == after_byte(month@, 2),
{
    let chars = crate::text::chars_of(month);
    let mut skip: usize = 2;
    let mut i: usize = 0;
    proof {
        assert(chars@.skip(0) =~= chars@);
    }
    while skip > 0 && i < chars.len()
        invariant
            chars@ == month@,
            i <= chars.len(),
            skip <= 2,
            byte_boundary(chars@.skip(i as int), skip as nat),
            after_byte(chars@.skip(i as int), skip as nat) == after_byte(month@, 2),
        decreases chars.len() - i,
    {
        let w = char_width(chars[i]);
        proof {
            assert(chars@.skip(i as int)[0] == chars@[i as int]);
            assert(chars@.skip(i as int).drop_first() =~= chars@.skip(i + 1));
        }
        skip = skip - w;
        i = i + 1;
    }
    proof {
        assert(chars@.skip(0) =~= chars@);
    }
    let mut out = String::new();
    let mut j: usize = i;
    while j < chars.len()
        invariant
            chars@ == month@,
            i <= j <= chars.len(),
            out@ == chars@.subrange(i as int, j as int),
        decreases chars.len() - j,
    {
        out.push(chars[j]);
        proof {
            assert(chars@.subrange(i as int, j + 1) =~= chars@.subrange(i as int, j as int).push(chars@[j as int]));
        }
        j = j + 1;
    }
    proof {
        assert(chars@.subrange(i as int, chars.len() as int) =~= chars@.skip(i as int));
        if skip == 0 {
            assert(after_byte(chars@.skip(i as int), 0) == chars@.skip(i as int));
        } else {
            assert(chars@.skip(i as int).len() == 0);
        }
    }
    out
}

/// The caption under the pairs chart: how many pairs only ever run one way.
pub open spec fn pair_caption_spec(mutual: i64, one_way: i64) -> Seq<char> {
    "<p class=\"caption\">Ranked on the <em>smaller</em> of the two directions, so a pair is only as strong as the quieter half of it. The two numbers are replies each way. A pair that only ever runs one way is somebody being answered, not a correspondence &#8212; "@
        + thousands_spec(one_way as int) + " of the "@ + thousands_spec(mutual + one_way)
        + " pairs here are that.</p>"@
}

/// The caption under the pairs chart.
pub fn pair_caption(mutual: i64, one_way: i64) -> (out: String)
    requires
        i64::MIN <= mutual + one_way <= i64::MAX,
    ensures
        out@ == pair_caption_spec(mutual, one_way),
{
    let mut out = String::from_str(
        "<p class=\"caption\">Ranked on the <em>smaller</em> of the two directions, so a pair is only as strong as the quieter half of it. The two numbers are replies each way. A pair that only ever runs one way is somebody being answered, not a correspondence &#8212; ",
    );
    let a = thousands(one_way);
    out.append(a.as_str());
    out.append(" of the ");
    let b = thousands(mutual + one_way);
    out.append(b.as_str());
    out.append(" pairs here are that.</p>");
    out
}

/// The count beside the section's heading.
pub open spec fn pair_count_spec(mutual: i64, one_way: i64) -> Seq<char> {
    thousands_spec(mutual as int) + " mutual, "@ + thousands_spec(one_way as int) + " one-way"@
}

/// The count beside the section's heading: pairs answering each other, and
/// pairs running one way only.
pub fn pair_count(mutual: i64, one_way: i64) -> (out: String)
    ensures
        out@ == pair_count_spec(mutual, one_way),
{
    let mut out = thousands(mutual);
    out.append(" mutual, ");
    let b = thousands(one_way);
    out.append(b.as_str());
    out.append(" one-way");
    out
}


/// Two people and the replies each way between them.
#[derive(Debug, Clone, Default)]
pub struct PairRow {
    pub a_name: String,
    pub b_name: String,
    pub a_to_b: i64,
    pub b_to_a: i64,
}

/// One row of the correspondents table; the balance is measured elsewhere.
pub open spec fn pair_cells(p: PairRow, balance: Seq<char>) -> Seq<Seq<char>> {
    seq![
        short_spec(p.a_name@, 26),
        short_spec(p.b_name@, 26),
        thousands_spec(p.a_to_b as int),
        thousands_spec(p.b_to_a as int),
        balance,
    ]
}

/// The columns of the correspondents table.
pub open spec fn pair_headers() -> Seq<(Seq<char>, bool)> {
    seq![("Person"@, false), ("Person"@, false), ("&rarr;"@, true), ("&larr;"@, true), ("Balance"@, true)]
}

/// One row of the answer-times table: the hour, the replies, and the median
/// (measured elsewhere) or a dash when the hour has too few replies.
pub open spec fn answer_cells(h: nat, count: i64, floor: i64, median: Seq<char>) -> Seq<Seq<char>> {
    seq![
        padded(h, 2) + ":00"@,
        thousands_spec(count as int),
        if count >= floor { median } else { "&#8212;"@ },
    ]
}

/// The columns of the answer-times table.
pub open spec fn answer_headers() -> Seq<(Seq<char>, bool)> {
    seq![("Hour"@, false), ("Replies"@, true), ("Median"@, false)]
}

/// The columns of the month-by-month table.
pub open spec fn month_headers() -> Seq<(Seq<char>, bool)> {
    seq![("Month"@, false), ("Spoke"@, true), ("New"@, true), ("Returning"@, true), ("Lost"@, true)]
}

/// What the section counts.
#[derive(Debug, Clone, Default)]
pub struct BetweenFacts {
    /// Whether the statistics carry the branch this section draws.
    pub present: bool,
    /// Whether that branch was recorded from an export with nothing in it.
    pub empty: bool,
    pub pairs: Vec<PairRow>,
    pub mutual: i64,
    pub one_way: i64,
    /// Replies by the hour the answered message was posted.
    pub counts: Vec<i64>,
    /// Replies an hour needs before its median is quoted.
    pub floor: i64,
    pub counted: i64,
    pub months: Months,
    pub quiet: Vec<Quiet>,
    pub as_of: String,
    pub active_within: i64,
    pub fading_within: i64,
    /// People still posting, gone quiet, and long gone.
    pub active: i64,
    pub fading: i64,
    pub gone: i64,
    /// The longest reply chain.
    pub deepest: i64,
}

/// The parts of the section drawn or measured elsewhere.
#[derive(Debug, Clone, Default)]
pub struct BetweenDrawn {
    /// The share of people kept from one month to the next, as markup.
    pub kept: String,
    /// Empty when there are no pairs.
    pub pair_chart: String,
    /// The balance of each pair, in the order of the pairs.
    pub balances: Vec<String>,
    /// Empty when no hour has enough replies.
    pub answer_chart: String,
    /// Each hour's median, in words.
    pub medians: Vec<String>,
    /// The longest gap still counted as an answer, in words.
    pub cap: String,
    /// Empty when nothing was replied to.
    pub depth_chart: String,
    /// Empty when there are no months.
    pub return_chart: String,
}

/// Who talks with whom, when there are pairs to draw.
pub open spec fn pair_block(f: BetweenFacts, d: BetweenDrawn) -> Seq<char> {
    if d.pair_chart@.len() == 0 {
        Seq::empty()
    } else {
        "<h3>Who talks with whom</h3>"@ + d.pair_chart@ + pair_caption_spec(f.mutual, f.one_way) + data_view_spec(
            "Correspondents, as numbers"@,
            table_spec(
                pair_headers(),
                Seq::new(f.pairs.len() as nat, |i: int| pair_cells(f.pairs@[i], d.balances@[i]@)),
            ),
        )
    }
}

/// How long until an answer, and how far a thread runs.
pub open spec fn answer_block(f: BetweenFacts, d: BetweenDrawn) -> Seq<char> {
    "<div class=\"cols2\"><div><h3>How long until an answer</h3>"@ + (if d.answer_chart@.len() == 0 {
        "<p class=\"caption\">No hour has enough replies to quote a median for.</p>"@
    } else {
        d.answer_chart@
    })
        + "<p class=\"caption\">By the hour the message being answered was posted, not the hour the answer arrived. An hour with fewer than "@
        + thousands_spec(f.floor as int) + " replies is left blank rather than drawn from too little. "@
        + thousands_spec(f.counted as int) + " replies counted, none further apart than "@ + d.cap@
        + ".</p></div><div><h3>How far a thread runs</h3>"@ + (if d.depth_chart@.len() == 0 {
        "<p class=\"caption\">Nothing in this archive was replied to.</p>"@
    } else {
        d.depth_chart@
    })
        + "<p class=\"caption\">Messages by the length of the reply chain they sit at the end of. A chain of two is one answer; most of the archive is a chain of one and is not drawn.</p></div></div>"@
        + data_view_spec(
        "Answer times, as numbers"@,
        table_spec(
            answer_headers(),
            Seq::new(
                f.counts.len() as nat,
                |h: int| answer_cells(h as nat, f.counts@[h], f.floor, d.medians@[h]@),
            ),
        ),
    )
}

/// Who came back, when there are months to draw.
pub open spec fn return_block(f: BetweenFacts, d: BetweenDrawn) -> Seq<char> {
    if d.return_chart@.len() == 0 {
        Seq::empty()
    } else {
        "<h3>Who came back</h3>"@ + d.return_chart@
            + "<p class=\"caption\">People who spoke in a month <em>and</em> in the month before it. Silent months stay on the axis: closing a gap would report the first month after it as an ordinary return. Nobody is announced for going quiet, which is why this is not in Coming and going.</p>"@
            + data_view_spec(
            "Month by month, as numbers"@,
            table_spec(
                month_headers(),
                Seq::new(f.months.months.len() as nat, |at: int| month_row(f.months, at)),
            ),
        )
    }
}

/// The headline figures of the section.
pub open spec fn between_figures_spec(f: BetweenFacts, d: BetweenDrawn) -> Seq<char> {
    "<ul class=\"figures\">"@ + figure_cells(
        seq![
            (thousands_spec(f.mutual as int), "pairs answering each other"@),
            (thousands_spec(f.active as int), "still posting"@),
            (thousands_spec(f.fading as int), "gone quiet"@),
            (thousands_spec(f.gone as int), "long gone"@),
            (d.kept@, "kept month to month"@),
            (thousands_spec(f.deepest as int), "deepest chain"@),
        ],
    ) + "</ul>"@
}

fn between_figures(f: &BetweenFacts, d: &BetweenDrawn) -> (out: String)
    ensures
        out@ == between_figures_spec(*f, *d),
{
    let mut items: Vec<(String, String)> = Vec::new();
    items.push(figure(thousands(f.mutual), "pairs answering each other"));
    items.push(figure(thousands(f.active), "still posting"));
    items.push(figure(thousands(f.fading), "gone quiet"));
    items.push(figure(thousands(f.gone), "long gone"));
    items.push(figure(d.kept.clone(), "kept month to month"));
    items.push(figure(thousands(f.deepest), "deepest chain"));
    proof {
        assert(pair_views(items@) =~= seq![
            (thousands_spec(f.mutual as int), "pairs answering each other"@),
            (thousands_spec(f.active as int), "still posting"@),
            (thousands_spec(f.fading as int), "gone quiet"@),
            (thousands_spec(f.gone as int), "long gone"@),
            (d.kept@, "kept month to month"@),
            (thousands_spec(f.deepest as int), "deepest chain"@),
        ]);
    }
    figures(&items)
}

/// Whether the section between people is drawn: its branch is in the
/// statistics and has something in it. The table of contents links to the
/// section on exactly the same test.
pub open spec fn between_drawn(present: bool, empty: bool) -> bool {
    present && !empty
}

/// The section between people; nothing when its branch is absent or empty.
pub open spec fn between_spec(f: BetweenFacts, d: BetweenDrawn) -> Seq<char> {
    if !between_drawn(f.present, f.empty) {
        Seq::empty()
    } else {
        head_spec("Between people"@, pair_count_spec(f.mutual, f.one_way), "between"@) + between_figures_spec(f, d)
            + pair_block(f, d) + answer_block(f, d) + return_block(f, d) + gone_quiet_spec(
            f.quiet@,
            f.as_of@,
            f.active_within,
            f.fading_within,
        )
    }
}

fn headers_of(names: &Vec<&'static str>, numeric: &Vec<bool>) -> (out: Vec<(String, bool)>)
    requires
        names.len() == numeric.len(),
    ensures
        header_views(out@) == Seq::new(names.len() as nat, |i: int| (names@[i]@, numeric@[i])),
{
    let mut out: Vec<(String, bool)> = Vec::new();
    let mut i: usize = 0;
    while i < names.len()
        invariant
            names.len() == numeric.len(),
            i <= names.len(),
            out.len() == i,
            forall|q: int| 0 <= q < i ==> #[trigger] header_views(out@)[q] == (names@[q]@, numeric@[q]),
        decreases names.len() - i,
    {
        let ghost before = out@;
        out.push((String::from_str(names[i]), numeric[i]));
        proof {
            assert forall|q: int| 0 <= q < i + 1 implies #[trigger] header_views(out@)[q] == (
                names@[q]@,
                numeric@[q],
            ) by {
                if q < i {
                    assert(out@[q] == before[q]);
                    assert(header_views(before)[q] == (names@[q]@, numeric@[q]));
                }
            }
        }
        i = i + 1;
    }
    proof {
        assert(header_views(out@) =~= Seq::new(names.len() as nat, |i: int| (names@[i]@, numeric@[i])));
    }
    out
}

fn pair_section(f: &BetweenFacts, d: &BetweenDrawn) -> (out: String)
    requires
        d.balances.len() == f.pairs.len(),
        i64::MIN <= f.mutual + f.one_way <= i64::MAX,
    ensures
        out@ == pair_block(*f, *d),
{
    if d.pair_chart.as_str().is_empty() {
        return String::new();
    }
    let ghost want = Seq::new(f.pairs.len() as nat, |i: int| pair_cells(f.pairs@[i], d.balances@[i]@));
    let mut rows: Vec<Vec<String>> = Vec::new();
    let mut i: usize = 0;
    while i < f.pairs.len()
        invariant
            d.balances.len() == f.pairs.len(),
            want == Seq::new(f.pairs.len() as nat, |i: int| pair_cells(f.pairs@[i], d.balances@[i]@)),
            i <= f.pairs.len(),
            rows.len() == i,
            forall|q: int| 0 <= q < i ==> #[trigger] row_views(rows@)[q] == want[q],
        decreases f.pairs.len() - i,
    {
        let p = &f.pairs[i];
        let mut row: Vec<String> = Vec::new();
        row.push(short(p.a_name.as_str(), 26));
        row.push(short(p.b_name.as_str(), 26));
        row.push(thousands(p.a_to_b));
        row.push(thousands(p.b_to_a));
        row.push(String::from_str(d.balances[i].as_str()));
        let ghost before = rows@;
        rows.push(row);
        proof {
            assert(row_views(rows@)[i as int] =~= want[i as int]);
            assert forall|q: int| 0 <= q < i + 1 implies #[trigger] row_views(rows@)[q] == want[q] by {
                if q < i {
                    assert(rows@[q] == before[q]);
                    assert(row_views(before)[q] == want[q]);
                }
            }
        }
        i = i + 1;
    }
    let names = vec!["Person", "Person", "&rarr;", "&larr;", "Balance"];
    let numeric = vec![false, false, true, true, true];
    let headers = headers_of(&names, &numeric);
    proof {
        assert(header_views(headers@) =~= pair_headers());
        assert(row_views(rows@) =~= want);
    }
    let t = table(&headers, &rows);
    let mut out = String::from_str("<h3>Who talks with whom</h3>");
    out.append(d.pair_chart.as_str());
    let c = pair_caption(f.mutual, f.one_way);
    out.append(c.as_str());
    let v = data_view("Correspondents, as numbers", t.as_str());
    out.append(v.as_str());
    out
}

fn answer_table(f: &BetweenFacts, d: &BetweenDrawn) -> (out: String)
    requires
        d.medians.len() == f.counts.len(),
    ensures
        out@ == table_spec(
            answer_headers(),
            Seq::new(
                f.counts.len() as nat,
                |h: int| answer_cells(h as nat, f.counts@[h], f.floor, d.medians@[h]@),
            ),
        ),
{
    let ghost want = Seq::new(
        f.counts.len() as nat,
        |h: int| answer_cells(h as nat, f.counts@[h], f.floor, d.medians@[h]@),
    );
    let mut rows: Vec<Vec<String>> = Vec::new();
    let mut h: usize = 0;
    while h < f.counts.len()
        invariant
            d.medians.len() == f.counts.len(),
            want == Seq::new(
                f.counts.len() as nat,
                |h: int| answer_cells(h as nat, f.counts@[h], f.floor, d.medians@[h]@),
            ),
            h <= f.counts.len(),
            rows.len() == h,
            forall|q: int| 0 <= q < h ==> #[trigger] row_views(rows@)[q] == want[q],
        decreases f.counts.len() - h,
    {
        let mut label = String::new();
        push_padded(&mut label, h as u64, 2);
        label.append(":00");
        let mut row: Vec<String> = Vec::new();
        row.push(label);
        row.push(thousands(f.counts[h]));
        if f.counts[h] >= f.floor {
            row.push(String::from_str(d.medians[h].as_str()));
        } else {
            row.push(String::from_str("&#8212;"));
        }
        let ghost before = rows@;
        rows.push(row);
        proof {
            assert(row_views(rows@)[h as int] =~= want[h as int]);
            assert forall|q: int| 0 <= q < h + 1 implies #[trigger] row_views(rows@)[q] == want[q] by {
                if q < h {
                    assert(rows@[q] == before[q]);
                    assert(row_views(before)[q] == want[q]);
                }
            }
        }
        h = h + 1;
    }
    let names = vec!["Hour", "Replies", "Median"];
    let numeric = vec![false, true, false];
    let headers = headers_of(&names, &numeric);
    proof {
        assert(header_views(headers@) =~= answer_headers());
        assert(row_views(rows@) =~= want);
    }
    table(&headers, &rows)
}

fn answer_section(f: &BetweenFacts, d: &BetweenDrawn) -> (out: String)
    requires
        d.medians.len() == f.counts.len(),
    ensures
        out@ == answer_block(*f, *d),
{
    let mut out = String::from_str("<div class=\"cols2\"><div><h3>How long until an answer</h3>");
    if d.answer_chart.as_str().is_empty() {
        out.append("<p class=\"caption\">No hour has enough replies to quote a median for.</p>");
    } else {
        out.append(d.answer_chart.as_str());
    }
    out.append(
        "<p class=\"caption\">By the hour the message being answered was posted, not the hour the answer arrived. An hour with fewer than ",
    );
    let a = thousands(f.floor);
    out.append(a.as_str());
    out.append(" replies is left blank rather than drawn from too little. ");
    let b = thousands(f.counted);
    out.append(b.as_str());
    out.append(" replies counted, none further apart than ");
    out.append(d.cap.as_str());
    out.append(".</p></div><div><h3>How far a thread runs</h3>");
    if d.depth_chart.as_str().is_empty() {
        out.append("<p class=\"caption\">Nothing in this archive was replied to.</p>");
    } else {
        out.append(d.depth_chart.as_str());
    }
    out.append(
        "<p class=\"caption\">Messages by the length of the reply chain they sit at the end of. A chain of two is one answer; most of the archive is a chain of one and is not drawn.</p></div></div>",
    );
    let t = answer_table(f, d);
    let v = data_view("Answer times, as numbers", t.as_str());
    out.append(v.as_str());
    proof {
        assert(out@ =~= answer_block(*f, *d));
    }
    out
}

fn return_section(f: &BetweenFacts, d: &BetweenDrawn) -> (out: String)
    ensures
        out@ == return_block(*f, *d),
{
    if d.return_chart.as_str().is_empty() {
        return String::new();
    }
    let rows = month_rows(&f.months);
    let names = vec!["Month", "Spoke", "New", "Returning", "Lost"];
    let numeric = vec![false, true, true, true, true];
    let headers = headers_of(&names, &numeric);
    proof {
        assert(header_views(headers@) =~= month_headers());
        assert(row_views(rows@) =~= Seq::new(f.months.months.len() as nat, |at: int| month_row(f.months, at)));
    }
    let t = table(&headers, &rows);
    let mut out = String::from_str("<h3>Who came back</h3>");
    out.append(d.return_chart.as_str());
    out.append(
        "<p class=\"caption\">People who spoke in a month <em>and</em> in the month before it. Silent months stay on the axis: closing a gap would report the first month after it as an ordinary return. Nobody is announced for going quiet, which is why this is not in Coming and going.</p>",
    );
    let v = data_view("Month by month, as numbers", t.as_str());
    out.append(v.as_str());
    out
}

/// The section between people: who talks with whom, how long until an
/// answer, how far a thread runs, who came back, and who has gone quiet.
pub fn between(f: &BetweenFacts, d: &BetweenDrawn) -> (out: String)
    requires
        d.balances.len() == f.pairs.len(),
        d.medians.len() == f.counts.len(),
        i64::MIN <= f.mutual + f.one_way <= i64::MAX,
    ensures
        out@ == between_spec(*f, *d),
{
    if !f.present || f.empty {
        return String::new();
    }
    let count = pair_count(f.mutual, f.one_way);
    let mut out = head("Between people", count.as_str(), "between");
    let figs = between_figures(f, d);
    out.append(figs.as_str());
    let p = pair_section(f, d);
    out.append(p.as_str());
    let a = answer_section(f, d);
    out.append(a.as_str());
    let r = return_section(f, d);
    out.append(r.as_str());
    let q = gone_quiet(&f.quiet, f.as_of.as_str(), f.active_within, f.fading_within);
    out.append(q.as_str());
    proof {
        reveal_strlit("Between people");
        reveal_strlit("between");
    }
    out
}


proof fn lemma_not_active(rows: Seq<Quiet>, k: nat)
    requires
        k <= usize::MAX,
    ensures
        forall|m: int|
            0 <= m < not_active(rows, k).len() ==> #[trigger] rows[not_active(rows, k)[m] as int].status@
                != "active"@,
    decreases k,
{
    if k > 0 {
        lemma_not_active(rows, (k - 1) as nat);
        let prev = not_active(rows, (k - 1) as nat);
        let cur = not_active(rows, k);
        if rows[k - 1].status@ != "active"@ {
            assert forall|m: int| 0 <= m < cur.len() implies #[trigger] rows[cur[m] as int].status@ != "active"@ by {
                if m < prev.len() {
                    assert(cur[m] == prev[m]);
                } else {
                    assert(cur[m] == (k - 1) as usize);
                    assert((k - 1) as usize as int == k - 1);
                }
            }
        }
    }
}

/// The quiet list holds only people who are not active, at most thirty, and
/// the longest silence comes first.
pub proof fn law_quiet_list_is_ranked(rows: Seq<Quiet>)
    requires
        rows.len() <= usize::MAX,
    ensures
        quiet_order_spec(rows).len() <= QUIET_SHOWN,
        forall|m: int|
            0 <= m < quiet_order_spec(rows).len() ==> #[trigger] rows[quiet_order_spec(rows)[m] as int].status@
                != "active"@,
        forall|a: int, b: int|
            #![trigger quiet_order_spec(rows)[a], quiet_order_spec(rows)[b]]
            0 <= a < b < quiet_order_spec(rows).len() ==> rows[quiet_order_spec(rows)[a] as int].dormant_days
                >= rows[quiet_order_spec(rows)[b] as int].dormant_days,
{
    let at = not_active(rows, rows.len());
    lemma_not_active_bound(rows, rows.len());
    lemma_not_active(rows, rows.len());
    let n = silences(rows, at);
    let names = blank_names(at.len());
    let r = ranked(n, names, at.len());
    law_rank_lists_every_row_once(n, names, at.len());
    law_rank_is_ordered(n, names, at.len());
    let shown = if at.len() < QUIET_SHOWN { at.len() as int } else { QUIET_SHOWN as int };
    let order = quiet_order_spec(rows);
    assert(order == r.take(shown).map_values(|j: usize| at[j as int]));
    assert forall|m: int| 0 <= m < order.len() implies #[trigger] rows[order[m] as int].status@ != "active"@ by {
        assert(order[m] == at[r[m] as int]);
    }
    assert forall|a: int, b: int| 0 <= a < b < order.len() implies rows[order[a] as int].dormant_days
        >= rows[order[b] as int].dormant_days by {
        assert(!crate::rank::ranks_above(n, names, r[b] as int, r[a] as int));
        assert(n[r[a] as int] == rows[order[a] as int].dormant_days);
        assert(n[r[b] as int] == rows[order[b] as int].dormant_days);
    }
}

proof fn lemma_not_active_lists(rows: Seq<Quiet>, k: nat)
    requires
        k <= usize::MAX,
        k <= rows.len(),
    ensures
        forall|a: int, b: int|
            0 <= a < b < not_active(rows, k).len() ==> not_active(rows, k)[a] < not_active(rows, k)[b],
        forall|i: int|
            0 <= i < k && rows[i].status@ != "active"@ ==> #[trigger] not_active(rows, k).contains(i as usize),
    decreases k,
{
    if k > 0 {
        lemma_not_active_lists(rows, (k - 1) as nat);
        lemma_not_active_bound(rows, (k - 1) as nat);
        let prev = not_active(rows, (k - 1) as nat);
        let cur = not_active(rows, k);
        if rows[k - 1].status@ != "active"@ {
            assert(cur == prev.push((k - 1) as usize));
            assert forall|i: int| 0 <= i < k && rows[i].status@ != "active"@ implies #[trigger] cur.contains(
                i as usize,
            ) by {
                if i < k - 1 {
                    assert(prev.contains(i as usize));
                    let p = choose|p: int| 0 <= p < prev.len() && prev[p] == i as usize;
                    assert(cur[p] == i as usize);
                } else {
                    assert(cur[prev.len() as int] == i as usize);
                }
            }
        } else {
            assert(cur == prev);
            assert forall|i: int| 0 <= i < k && rows[i].status@ != "active"@ implies #[trigger] cur.contains(
                i as usize,
            ) by {
                assert(prev.contains(i as usize));
            }
        }
    }
}

/// The quiet list is the head of the whole ranking: it names each person at
/// most once, nobody who is not active and left out has been silent longer
/// than anybody listed, and somebody not active is left out only when the
/// list is full.
pub proof fn law_quiet_list_is_complete(rows: Seq<Quiet>)
    requires
        rows.len() <= usize::MAX,
    ensures
        forall|m: int| 0 <= m < quiet_order_spec(rows).len() ==> #[trigger] quiet_order_spec(rows)[m] < rows.len(),
        forall|a: int, b: int|
            0 <= a < b < quiet_order_spec(rows).len() ==> quiet_order_spec(rows)[a] != quiet_order_spec(rows)[b],
        forall|k: int, m: int|
            #![trigger rows[k], quiet_order_spec(rows)[m]]
            0 <= k < rows.len() && rows[k].status@ != "active"@ && !quiet_order_spec(rows).contains(k as usize)
                && 0 <= m < quiet_order_spec(rows).len() ==> rows[k].dormant_days
                <= rows[quiet_order_spec(rows)[m] as int].dormant_days,
        forall|k: int|
            #![trigger rows[k]]
            0 <= k < rows.len() && rows[k].status@ != "active"@ && !quiet_order_spec(rows).contains(k as usize)
                ==> quiet_order_spec(rows).len() == QUIET_SHOWN,
{
    let at = not_active(rows, rows.len());
    lemma_not_active_bound(rows, rows.len());
    lemma_not_active_lists(rows, rows.len());
    let n = silences(rows, at);
    let names = blank_names(at.len());
    let r = ranked(n, names, at.len());
    law_rank_lists_every_row_once(n, names, at.len());
    law_rank_is_ordered(n, names, at.len());
    crate::rank::law_rank_misses_no_row(n, names, at.len());
    let shown = if at.len() < QUIET_SHOWN { at.len() as int } else { QUIET_SHOWN as int };
    let order = quiet_order_spec(rows);
    assert(order == r.take(shown).map_values(|j: usize| at[j as int]));
    assert forall|m: int| 0 <= m < order.len() implies #[trigger] order[m] < rows.len() by {
        assert(order[m] == at[r[m] as int]);
    }
    assert forall|a: int, b: int| 0 <= a < b < order.len() implies order[a] != order[b] by {
        assert(order[a] == at[r[a] as int]);
        assert(order[b] == at[r[b] as int]);
        assert(r[a] != r[b]);
        if r[a] < r[b] {
            assert(at[r[a] as int] < at[r[b] as int]);
        } else {
            assert(at[r[b] as int] < at[r[a] as int]);
        }
    }
    assert forall|k: int|
        0 <= k < rows.len() && rows[k].status@ != "active"@ && !order.contains(k as usize) implies {
            let p = choose|p: int| 0 <= p < at.len() && at[p] == k as usize;
            let q = choose|q: int| 0 <= q < r.len() && r[q] == p as usize;
            &&& 0 <= p < at.len() && at[p] == k as usize
            &&& 0 <= q < r.len() && r[q] == p as usize
            &&& shown <= q
        } by {
        assert(at.contains(k as usize));
        let p = choose|p: int| 0 <= p < at.len() && at[p] == k as usize;
        assert(r.contains(p as usize));
        let q = choose|q: int| 0 <= q < r.len() && r[q] == p as usize;
        if q < shown {
            assert(order[q] == at[r[q] as int]);
            assert(order[q] == k as usize);
            assert(order.contains(k as usize));
        }
    }
    assert forall|k: int, m: int|
        #![trigger rows[k], order[m]]
        0 <= k < rows.len() && rows[k].status@ != "active"@ && !order.contains(k as usize) && 0 <= m < order.len()
            implies rows[k].dormant_days <= rows[order[m] as int].dormant_days by {
        let p = choose|p: int| 0 <= p < at.len() && at[p] == k as usize;
        let q = choose|q: int| 0 <= q < r.len() && r[q] == p as usize;
        assert(m < q);
        assert(!crate::rank::ranks_above(n, names, r[q] as int, r[m] as int));
        assert(n[r[q] as int] == rows[k].dormant_days);
        assert(order[m] == at[r[m] as int]);
        assert(n[r[m] as int] == rows[order[m] as int].dormant_days);
    }
    assert forall|k: int|
        #![trigger rows[k]]
        0 <= k < rows.len() && rows[k].status@ != "active"@ && !order.contains(k as usize)
            implies order.len() == QUIET_SHOWN by {
        let p = choose|p: int| 0 <= p < at.len() && at[p] == k as usize;
        let q = choose|q: int| 0 <= q < r.len() && r[q] == p as usize;
        assert(shown <= q < at.len());
    }
}

} // verus!
