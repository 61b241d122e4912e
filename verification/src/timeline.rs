//! The hand-written notes pinned to the timeline: one card per event, the
//! kind filters above them, and what the notes claim to have read.
//!
//! The events file is written outside the program entirely, so it is the
//! least trusted input on the page: every field of it is escaped.

use vstd::prelude::*;

use crate::names::Names;
use crate::rank::text_lt;
use crate::sections::{figure, figure_cells, figures, pair_views, data_view, data_view_spec, head, head_spec, header_views, plural, plural_spec, row_views, table, table_spec, who_line, who_line_spec};
use crate::stats::Count;
use crate::text::{thousands, thousands_spec, decimal, dec, esc, esc_spec, join, joined, natural, same_text, signed_dec, views};
use crate::time::{days_in_month, iso_date, padded, parse_iso_date, pretty_date, pretty_date_spec, push_padded, real_day, year_text};
use chrono::Datelike;

verus! {

/// A calendar day.
#[derive(Debug, Clone, Copy, PartialEq, Eq, Structural, Default)]
pub struct Date {
    pub year: i32,
    pub month: u32,
    pub day: u32,
}

impl Date {
    /// A month from 1 to 12 and a day from 1 to 31.
    pub open spec fn wf(&self) -> bool {
        1 <= self.month <= 12 && 1 <= self.day <= 31
    }

    /// A real calendar day, in the range of years chrono holds.
    pub open spec fn is_real(&self) -> bool {
        real_day(self.year as int, self.month as int, self.day as int)
    }
}

/// Whether `a` is an earlier day than `b`.
pub open spec fn date_before(a: Date, b: Date) -> bool {
    a.year < b.year || (a.year == b.year && (a.month < b.month || (a.month == b.month && a.day < b.day)))
}

/// One event from the notes.
#[derive(Debug, Clone, Default)]
pub struct Event {
    pub id: String,
    pub start: Date,
    pub end: Option<Date>,
    pub title: String,
    pub summary: String,
    pub kind: String,
    pub topic: Option<usize>,
    /// The ids of the messages it rests on.
    pub messages: Vec<i64>,
    pub confidence: String,
    /// A clock time, when the notes give one.
    pub time: String,
    pub weight: String,
    pub who: Vec<String>,
    pub tags: Vec<String>,
}

impl Event {
    /// Every date in it is a calendar day.
    pub open spec fn wf(&self) -> bool {
        &&& self.start.wf()
        &&& match self.end {
            Some(e) => e.wf(),
            None => true,
        }
    }

    /// An event that runs over more than one day.
    pub open spec fn spans_spec(&self) -> bool {
        match self.end {
            Some(e) => date_before(self.start, e),
            None => false,
        }
    }

    /// An event that runs over more than one day: it ends after it starts.
    pub fn spans(&self) -> (r: bool)
        ensures
            r == self.spans_spec(),
    {
        match self.end {
            Some(e) => {
                let s = self.start;
                s.year < e.year || (s.year == e.year && (s.month < e.month || (s.month == e.month
                    && s.day < e.day)))
            },
            None => false,
        }
    }
}

/// A day as `NaiveDate` writes it: `2025-09-05`, the year signed and at least
/// four digits outside 0 to 9999.
pub open spec fn iso_text(d: Date) -> Seq<char> {
    year_text(d.year as int) + "-"@ + padded(d.month as nat, 2) + "-"@ + padded(d.day as nat, 2)
}

/// A day as the page prints it: its ISO text, read back as a day and written
/// out in words, or left as it is when it does not read back.
pub open spec fn day_text(d: Date) -> Seq<char> {
    pretty_date_spec(iso_text(d))
}

/// A day as `NaiveDate` writes it.
fn iso_day(d: &Date) -> (out: String)
    ensures
        out@ == iso_text(*d),
{
    let mut out = String::new();
    if 0 <= d.year && d.year <= 9999 {
        push_padded(&mut out, d.year as u64, 4);
    } else if d.year < 0 {
        out.push('-');
        let magnitude = (-(d.year as i64)) as u64;
        push_padded(&mut out, magnitude, 4);
    } else {
        out.push('+');
        push_padded(&mut out, d.year as u64, 4);
    }
    out.push('-');
    push_padded(&mut out, d.month as u64, 2);
    out.push('-');
    push_padded(&mut out, d.day as u64, 2);
    proof {
        reveal_strlit("-");
        assert(out@ =~= iso_text(*d));
    }
    out
}

/// A day as the page prints it.
fn day_words(d: &Date) -> (out: String)
    ensures
        out@ == day_text(*d),
{
    let iso = iso_day(d);
    pretty_date(iso.as_str())
}

/// When: the day, the last day of a span, and the clock time if given.
pub open spec fn when_spec(e: Event) -> Seq<char> {
    day_text(e.start) + (if e.spans_spec() {
        " &ndash; "@ + day_text(e.end.unwrap())
    } else {
        Seq::empty()
    }) + (if e.time@.len() == 0 {
        Seq::empty()
    } else {
        " <span class=\"at\">"@ + esc_spec(e.time@) + "</span>"@
    })
}

fn when(e: &Event) -> (out: String)
    requires
        e.wf(),
    ensures
        out@ == when_spec(*e),
{
    let mut out = day_words(&e.start);
    if e.spans() {
        match e.end {
            Some(x) => {
                out.append(" &ndash; ");
                let d = day_words(&x);
                out.append(d.as_str());
            },
            None => {},
        }
    }
    if !e.time.as_str().is_empty() {
        out.append(" <span class=\"at\">");
        let t = esc(e.time.as_str());
        out.append(t.as_str());
        out.append("</span>");
    }
    proof {
        assert(out@ =~= when_spec(*e));
    }
    out
}

/// The ids cited, as `to_string` writes them.
pub open spec fn id_texts(ids: Seq<i64>) -> Seq<Seq<char>> {
    ids.map_values(|id: i64| signed_dec(id as int))
}

/// How many cited ids a card lists before it trails off.
pub const CITED: usize = 8;

/// The messages an event rests on: a count, the first eight ids, and a
/// trailing ellipsis when there are more.
pub open spec fn cites_spec(ids: Seq<i64>) -> Seq<char> {
    if ids.len() == 0 {
        "<p class=\"cite\">no messages cited</p>"@
    } else {
        let shown = if ids.len() < CITED { ids.len() as int } else { CITED as int };
        "<p class=\"cite\">"@ + dec(ids.len()) + " message"@ + plural_spec(ids.len() as i64 as int)
            + " cited &#183; "@ + esc_spec(joined(id_texts(ids.take(shown)), ", "@)) + (if ids.len()
            > CITED {
            "&#8230;"@
        } else {
            Seq::empty()
        }) + "</p>"@
    }
}

fn cites(ids: &Vec<i64>) -> (out: String)
    ensures
        out@ == cites_spec(ids@),
{
    if ids.len() == 0 {
        return String::from_str("<p class=\"cite\">no messages cited</p>");
    }
    let count = ids.len();
    let shown = if count < CITED { count } else { CITED };
    let mut texts: Vec<String> = Vec::new();
    let mut i: usize = 0;
    while i < shown
        invariant
            shown <= ids.len(),
            i <= shown,
            texts.len() == i,
            views(texts@) == id_texts(ids@.take(i as int)),
        decreases shown - i,
    {
        let ghost before = texts@;
        texts.push(decimal(ids[i]));
        proof {
            assert forall|q: int| 0 <= q < i + 1 implies #[trigger] views(texts@)[q] == id_texts(
                ids@.take(i + 1),
            )[q] by {
                if q < i {
                    assert(texts@[q] == before[q]);
                    assert(views(before)[q] == id_texts(ids@.take(i as int))[q]);
                }
            }
            assert(views(texts@) =~= id_texts(ids@.take(i + 1)));
        }
        i = i + 1;
    }
    let mut out = String::from_str("<p class=\"cite\">");
    let n = natural(count as u64);
    out.append(n.as_str());
    out.append(" message");
    out.append(plural(count as i64));
    out.append(" cited &#183; ");
    let list = join(&texts, ", ");
    let e = esc(list.as_str());
    out.append(e.as_str());
    if count > CITED {
        out.append("&#8230;");
    }
    out.append("</p>");
    proof {
        assert(out@ =~= cites_spec(ids@));
    }
    out
}


/// Where `kind` first sits in `kinds`, or 0 when it is not there.
pub open spec fn shape_of(kinds: Seq<Seq<char>>, kind: Seq<char>) -> nat
    decreases kinds.len(),
{
    if kinds.len() == 0 {
        0
    } else if kinds[0] == kind {
        0
    } else if exists|i: int| 0 <= i < kinds.len() && kinds[i] == kind {
        1 + shape_of(kinds.drop_first(), kind)
    } else {
        0
    }
}

fn shape_index(kinds: &Vec<String>, kind: &String) -> (at: usize)
    ensures
        at == shape_of(views(kinds@), kind@),
{
    let ghost ks = views(kinds@);
    let mut i: usize = 0;
    while i < kinds.len()
        invariant
            ks == views(kinds@),
            i <= kinds.len(),
            forall|q: int| 0 <= q < i ==> ks[q] != kind@,
        decreases kinds.len() - i,
    {
        if same_text(kinds[i].as_str(), kind.as_str()) {
            proof {
                lemma_shape_found(ks, kind@, i as int);
            }
            return i;
        }
        i = i + 1;
    }
    proof {
        lemma_shape_absent(ks, kind@);
    }
    0
}

proof fn lemma_shape_found(ks: Seq<Seq<char>>, kind: Seq<char>, i: int)
    requires
        0 <= i < ks.len(),
        ks[i] == kind,
        forall|q: int| 0 <= q < i ==> ks[q] != kind,
    ensures
        shape_of(ks, kind) == i,
    decreases i,
{
    if i > 0 {
        let t = ks.drop_first();
        assert(t[i - 1] == kind);
        lemma_shape_found(t, kind, i - 1);
    }
}

proof fn lemma_shape_absent(ks: Seq<Seq<char>>, kind: Seq<char>)
    requires
        forall|q: int| 0 <= q < ks.len() ==> ks[q] != kind,
    ensures
        shape_of(ks, kind) == 0,
{
}

/// The weight badge beside the title.
pub open spec fn weight_badge(w: Seq<char>) -> Seq<char> {
    if w.len() == 0 {
        Seq::empty()
    } else {
        " <span class=\"w w-"@ + esc_spec(w) + "\">"@ + esc_spec(w) + "</span>"@
    }
}

/// The kind, ahead of the summary.
pub open spec fn kind_lead(k: Seq<char>) -> Seq<char> {
    if k.len() == 0 {
        Seq::empty()
    } else {
        "<span class=\"kind\">"@ + esc_spec(k) + "</span> &#183; "@
    }
}

/// The summary, or a word saying there is none.
pub open spec fn summary_text(s: Seq<char>) -> Seq<char> {
    if esc_spec(s).len() == 0 {
        "No summary."@
    } else {
        esc_spec(s)
    }
}

/// The confidence, after the summary.
pub open spec fn confidence_tail(c: Seq<char>) -> Seq<char> {
    if c.len() == 0 {
        Seq::empty()
    } else {
        " &#183; "@ + esc_spec(c) + " confidence"@
    }
}

/// The tag cells.
pub open spec fn tag_cells(tags: Seq<Seq<char>>) -> Seq<char>
    decreases tags.len(),
{
    if tags.len() == 0 {
        Seq::empty()
    } else {
        tag_cells(tags.drop_last()) + "<span>"@ + esc_spec(tags.last()) + "</span>"@
    }
}

/// The tags, when there are any.
pub open spec fn tag_line(tags: Seq<Seq<char>>) -> Seq<char> {
    if tags.len() == 0 {
        Seq::empty()
    } else {
        "<p class=\"tags\">"@ + tag_cells(tags) + "</p>"@
    }
}

/// A card's opening: shape class, anchor, kind, when, title and weight.
pub open spec fn card_open(e: Event, kinds: Seq<Seq<char>>) -> Seq<char> {
    "<li class=\"k"@ + dec(shape_of(kinds, e.kind@)) + "\" id=\"event-"@ + esc_spec(e.id@)
        + "\" data-kind=\""@ + esc_spec(e.kind@) + "\"><time>"@ + when_spec(e) + "</time><div><h4>"@
        + esc_spec(e.title@) + weight_badge(e.weight@) + "</h4><p>"@
}

/// A card's sentence: kind, summary, confidence.
pub open spec fn card_text(e: Event) -> Seq<char> {
    kind_lead(e.kind@) + summary_text(e.summary@) + confidence_tail(e.confidence@)
}

/// One event's card.
pub open spec fn card_spec(e: Event, kinds: Seq<Seq<char>>, known: Seq<Seq<char>>) -> Seq<char> {
    card_open(e, kinds) + card_text(e) + "</p>"@ + who_line_spec(known, views(e.who@)) + tag_line(
        views(e.tags@),
    ) + cites_spec(e.messages@) + "</div></li>"@
}

fn open_card(e: &Event, kinds: &Vec<String>) -> (out: String)
    requires
        e.wf(),
    ensures
        out@ == card_open(*e, views(kinds@)),
{
    let shape = shape_index(kinds, &e.kind);
    let mut out = String::from_str("<li class=\"k");
    let n = natural(shape as u64);
    out.append(n.as_str());
    out.append("\" id=\"event-");
    let id = esc(e.id.as_str());
    out.append(id.as_str());
    out.append("\" data-kind=\"");
    let k = esc(e.kind.as_str());
    out.append(k.as_str());
    out.append("\"><time>");
    let w = when(e);
    out.append(w.as_str());
    out.append("</time><div><h4>");
    let t = esc(e.title.as_str());
    out.append(t.as_str());
    let ghost mid = out@;
    if !e.weight.as_str().is_empty() {
        out.append(" <span class=\"w w-");
        let a = esc(e.weight.as_str());
        out.append(a.as_str());
        out.append("\">");
        out.append(a.as_str());
        out.append("</span>");
    }
    proof {
        assert(out@ =~= mid + weight_badge(e.weight@));
    }
    out.append("</h4><p>");
    proof {
        assert(out@ =~= card_open(*e, views(kinds@)));
    }
    out
}

fn text_of_card(e: &Event) -> (out: String)
    ensures
        out@ == card_text(*e),
{
    let mut out = String::new();
    if !e.kind.as_str().is_empty() {
        out.append("<span class=\"kind\">");
        let k = esc(e.kind.as_str());
        out.append(k.as_str());
        out.append("</span> &#183; ");
    }
    let ghost lead = out@;
    let summary = esc(e.summary.as_str());
    if summary.as_str().is_empty() {
        out.append("No summary.");
    } else {
        out.append(summary.as_str());
    }
    let ghost mid = out@;
    if !e.confidence.as_str().is_empty() {
        out.append(" &#183; ");
        let c = esc(e.confidence.as_str());
        out.append(c.as_str());
        out.append(" confidence");
    }
    proof {
        assert(lead =~= kind_lead(e.kind@));
        assert(mid =~= lead + summary_text(e.summary@));
        assert(out@ =~= mid + confidence_tail(e.confidence@));
    }
    out
}

fn tag_string(tags: &Vec<String>) -> (out: String)
    ensures
        out@ == tag_line(views(tags@)),
{
    if tags.len() == 0 {
        return String::new();
    }
    let ghost tv = views(tags@);
    let mut cells = String::new();
    let mut i: usize = 0;
    while i < tags.len()
        invariant
            tv == views(tags@),
            i <= tags.len(),
            cells@ == tag_cells(tv.take(i as int)),
        decreases tags.len() - i,
    {
        proof {
            assert(tv.take(i + 1).drop_last() =~= tv.take(i as int));
        }
        cells.append("<span>");
        let e = esc(tags[i].as_str());
        cells.append(e.as_str());
        cells.append("</span>");
        proof {
            assert(cells@ =~= tag_cells(tv.take(i + 1)));
        }
        i = i + 1;
    }
    proof {
        assert(tv.take(tags.len() as int) =~= tv);
    }
    let mut out = String::from_str("<p class=\"tags\">");
    out.append(cells.as_str());
    out.append("</p>");
    out
}

/// One event's card: when, title, kind, summary, confidence, who, tags, and
/// the messages it rests on.
pub fn event_card(e: &Event, kinds: &Vec<String>, names: &Names) -> (out: String)
    requires
        e.wf(),
    ensures
        out@ == card_spec(*e, views(kinds@), names.names()),
{
    let mut out = open_card(e, kinds);
    let t = text_of_card(e);
    out.append(t.as_str());
    out.append("</p>");
    let who = who_line(&e.who, names);
    out.append(who.as_str());
    let tags = tag_string(&e.tags);
    out.append(tags.as_str());
    let c = cites(&e.messages);
    out.append(c.as_str());
    out.append("</div></li>");
    proof {
        assert(views(e.who@) =~= e.who@.map_values(|s: String| s@));
        assert(out@ =~= card_spec(*e, views(kinds@), names.names()));
    }
    out
}


/// The kinds the events use, each once, in the order first seen; an event
/// with no kind adds none.
pub open spec fn kinds_used(events: Seq<Event>) -> Seq<Seq<char>>
    decreases events.len(),
{
    if events.len() == 0 {
        Seq::empty()
    } else {
        let prev = kinds_used(events.drop_last());
        let k = events.last().kind@;
        if k.len() == 0 || prev.contains(k) {
            prev
        } else {
            prev.push(k)
        }
    }
}

/// The vocabulary of kinds the notes actually used, in first-seen order.
pub fn event_kinds(events: &Vec<Event>) -> (out: Vec<String>)
    ensures
        views(out@) == kinds_used(events@),
{
    let mut out: Vec<String> = Vec::new();
    let mut i: usize = 0;
    while i < events.len()
        invariant
            i <= events.len(),
            views(out@) == kinds_used(events@.take(i as int)),
        decreases events.len() - i,
    {
        proof {
            assert(events@.take(i + 1).drop_last() =~= events@.take(i as int));
        }
        let kind = &events[i].kind;
        let mut seen = false;
        let mut q: usize = 0;
        while q < out.len()
            invariant
                q <= out.len(),
                seen <==> exists|p: int| 0 <= p < q && out@[p]@ == kind@,
            decreases out.len() - q,
        {
            if same_text(out[q].as_str(), kind.as_str()) {
                seen = true;
            }
            q = q + 1;
        }
        proof {
            let prev = views(out@);
            if seen {
                let p = choose|p: int| 0 <= p < out.len() && out@[p]@ == kind@;
                assert(prev[p] == kind@);
            } else {
                assert(!prev.contains(kind@)) by {
                    if prev.contains(kind@) {
                        let p = choose|p: int| 0 <= p < prev.len() && prev[p] == kind@;
                        assert(out@[p]@ == kind@);
                    }
                }
            }
        }
        if !kind.as_str().is_empty() && !seen {
            let ghost before = out@;
            out.push(String::from_str(kind.as_str()));
            proof {
                assert(views(out@) =~= views(before).push(kind@));
            }
        }
        i = i + 1;
    }
    proof {
        assert(events@.take(events.len() as int) =~= events@);
    }
    out
}

/// How many events are of the given kind.
pub open spec fn kind_count(events: Seq<Event>, kind: Seq<char>) -> nat
    decreases events.len(),
{
    if events.len() == 0 {
        0
    } else {
        kind_count(events.drop_last(), kind) + if events.last().kind@ == kind { 1nat } else { 0nat }
    }
}

/// The marker glyph for a shape: ●, ■, ▲ or ◆, the same shapes the rail draws.
pub open spec fn glyph(shape: nat) -> char {
    if shape % 4 == 0 {
        '\u{25cf}'
    } else if shape % 4 == 1 {
        '\u{25a0}'
    } else if shape % 4 == 2 {
        '\u{25b2}'
    } else {
        '\u{25c6}'
    }
}

/// One toggle: the shape, the word, and how many events it covers.
pub open spec fn filter_button(index: nat, kind: Seq<char>, count: nat) -> Seq<char> {
    "<button class=\"kind-filter on\" data-k=\""@ + dec(index) + "\" aria-pressed=\"true\"><i class=\"g"@
        + dec(index % 4) + "\">"@ + seq![glyph(index)] + "</i>"@ + esc_spec(kind) + " <span>"@ + dec(
        count,
    ) + "</span></button>"@
}

/// The toggles for the first `k` kinds.
pub open spec fn filter_buttons(kinds: Seq<Seq<char>>, events: Seq<Event>, k: nat) -> Seq<char>
    decreases k,
{
    if k == 0 {
        Seq::empty()
    } else {
        filter_buttons(kinds, events, (k - 1) as nat) + filter_button(
            (k - 1) as nat,
            kinds[k - 1],
            kind_count(events, kinds[k - 1]),
        )
    }
}

/// One toggle per kind actually present; nothing when there is only one,
/// since a filter that can only be all-on or all-off is not a choice.
pub open spec fn kind_filters_spec(kinds: Seq<Seq<char>>, events: Seq<Event>) -> Seq<char> {
    if kinds.len() < 2 {
        Seq::empty()
    } else {
        "<div class=\"kinds\">"@ + filter_buttons(kinds, events, kinds.len()) + "</div>"@
    }
}

fn count_kind(events: &Vec<Event>, kind: &String) -> (n: usize)
    ensures
        n == kind_count(events@, kind@),
{
    let mut n: usize = 0;
    let mut i: usize = 0;
    while i < events.len()
        invariant
            i <= events.len(),
            n <= i,
            n == kind_count(events@.take(i as int), kind@),
        decreases events.len() - i,
    {
        proof {
            assert(events@.take(i + 1).drop_last() =~= events@.take(i as int));
        }
        if same_text(events[i].kind.as_str(), kind.as_str()) {
            n = n + 1;
        }
        i = i + 1;
    }
    proof {
        assert(events@.take(events.len() as int) =~= events@);
    }
    n
}

/// One toggle per kind actually present, shape-coded to match the rail, with
/// the word beside the shape so nothing rests on telling ● from ■ alone.
pub fn kind_filters(kinds: &Vec<String>, events: &Vec<Event>) -> (out: String)
    ensures
        out@ == kind_filters_spec(views(kinds@), events@),
{
    if kinds.len() < 2 {
        return String::new();
    }
    let ghost ks = views(kinds@);
    let mut cells = String::new();
    let mut i: usize = 0;
    while i < kinds.len()
        invariant
            ks == views(kinds@),
            i <= kinds.len(),
            cells@ == filter_buttons(ks, events@, i as nat),
        decreases kinds.len() - i,
    {
        let ghost before = cells@;
        cells.append("<button class=\"kind-filter on\" data-k=\"");
        let a = natural(i as u64);
        cells.append(a.as_str());
        cells.append("\" aria-pressed=\"true\"><i class=\"g");
        let b = natural((i % 4) as u64);
        cells.append(b.as_str());
        cells.append("\">");
        let g = if i % 4 == 0 {
            '\u{25cf}'
        } else if i % 4 == 1 {
            '\u{25a0}'
        } else if i % 4 == 2 {
            '\u{25b2}'
        } else {
            '\u{25c6}'
        };
        cells.push(g);
        cells.append("</i>");
        let e = esc(kinds[i].as_str());
        cells.append(e.as_str());
        cells.append(" <span>");
        let n = count_kind(events, &kinds[i]);
        let c = natural(n as u64);
        cells.append(c.as_str());
        cells.append("</span></button>");
        proof {
            assert(cells@ =~= before + filter_button(i as nat, ks[i as int], kind_count(events@, ks[i as int])));
        }
        i = i + 1;
    }
    let mut out = String::from_str("<div class=\"kinds\">");
    out.append(cells.as_str());
    out.append("</div>");
    out
}


/// What the timeline says when there is no events file.
pub open spec fn no_events_note() -> Seq<char> {
    "<p class=\"note\">No events file yet. The ribbon shows how much was said; it cannot show what any of it meant. Run the analyser with <span class=\"num\">Write the digest</span> switched on, hand the resulting <span class=\"num\">analysis/digest.jsonl</span> and <span class=\"num\">analysis/EVENTS.md</span> to a model or a person, and drop their <span class=\"num\">events.json</span> beside the export. It will be pinned to this axis on the next run.</p>"@
}

/// Every event's card, in order.
pub open spec fn cards_spec(events: Seq<Event>, kinds: Seq<Seq<char>>, known: Seq<Seq<char>>) -> Seq<char>
    decreases events.len(),
{
    if events.len() == 0 {
        Seq::empty()
    } else {
        cards_spec(events.drop_last(), kinds, known) + card_spec(events.last(), kinds, known)
    }
}

/// Every date in every event is a calendar day.
pub open spec fn events_wf(events: Seq<Event>) -> bool {
    forall|i: int| 0 <= i < events.len() ==> #[trigger] events[i].wf()
}

/// The event listing and the note under it: the filters and one card per
/// event, or, with no events, the note saying how to add them.
pub open spec fn listing_spec(
    events: Seq<Event>,
    kinds: Seq<Seq<char>>,
    known: Seq<Seq<char>>,
    source: Seq<char>,
) -> (Seq<char>, Seq<char>) {
    if events.len() == 0 {
        (Seq::empty(), no_events_note())
    } else {
        (
            kind_filters_spec(kinds, events) + "<ul class=\"events\">"@ + cards_spec(events, kinds, known)
                + "</ul>"@,
            "<p class=\"note\">Events read from "@ + esc_spec(source) + ".</p>"@,
        )
    }
}

/// The event listing and the note under it.
pub fn event_listing(events: &Vec<Event>, kinds: &Vec<String>, names: &Names, source: &str) -> (out: (
    String,
    String,
))
    requires
        events_wf(events@),
    ensures
        (out.0@, out.1@) == listing_spec(events@, views(kinds@), names.names(), source@),
{
    if events.len() == 0 {
        return (
            String::new(),
            String::from_str(
                "<p class=\"note\">No events file yet. The ribbon shows how much was said; it cannot show what any of it meant. Run the analyser with <span class=\"num\">Write the digest</span> switched on, hand the resulting <span class=\"num\">analysis/digest.jsonl</span> and <span class=\"num\">analysis/EVENTS.md</span> to a model or a person, and drop their <span class=\"num\">events.json</span> beside the export. It will be pinned to this axis on the next run.</p>",
            ),
        );
    }
    let ghost ks = views(kinds@);
    let ghost known = names.names();
    let mut cards = String::new();
    let mut i: usize = 0;
    while i < events.len()
        invariant
            events_wf(events@),
            ks == views(kinds@),
            known == names.names(),
            i <= events.len(),
            cards@ == cards_spec(events@.take(i as int), ks, known),
        decreases events.len() - i,
    {
        proof {
            assert(events@.take(i + 1).drop_last() =~= events@.take(i as int));
            assert(events@[i as int].wf());
        }
        let card = event_card(&events[i], kinds, names);
        cards.append(card.as_str());
        i = i + 1;
    }
    proof {
        assert(events@.take(events.len() as int) =~= events@);
    }
    let mut listing = kind_filters(kinds, events);
    listing.append("<ul class=\"events\">");
    listing.append(cards.as_str());
    listing.append("</ul>");
    let mut note = String::from_str("<p class=\"note\">Events read from ");
    let e = esc(source);
    note.append(e.as_str());
    note.append(".</p>");
    (listing, note)
}

/// The caption under the ribbon: what one bar is, and the tallest.
pub open spec fn ribbon_caption_spec(per: nat, top: int) -> Seq<char> {
    "<p class=\"caption\">One bar per "@ + (if per == 1 { "day"@ } else { dec(per) + "-day block"@ })
        + "; the tallest is "@ + crate::text::thousands_spec(top)
        + " messages. Every row further down this page runs left to right over this same span, so the same horizontal position is the same week wherever you find it.</p>"@
}

/// The caption under the ribbon: what one bar is, and the tallest.
pub fn ribbon_caption(per: usize, top: i64) -> (out: String)
    ensures
        out@ == ribbon_caption_spec(per as nat, top as int),
{
    let mut out = String::from_str("<p class=\"caption\">One bar per ");
    if per == 1 {
        out.append("day");
    } else {
        let n = natural(per as u64);
        out.append(n.as_str());
        out.append("-day block");
    }
    out.append("; the tallest is ");
    let t = crate::text::thousands(top);
    out.append(t.as_str());
    out.append(
        " messages. Every row further down this page runs left to right over this same span, so the same horizontal position is the same week wherever you find it.</p>",
    );
    proof {
        assert(out@ =~= ribbon_caption_spec(per as nat, top as int));
    }
    out
}


/// Days in the months of a year before month `m`.
pub open spec fn days_before_month(y: int, m: int) -> int
    decreases m,
{
    if m <= 1 {
        0
    } else {
        days_before_month(y, m - 1) + days_in_month(y, m - 1)
    }
}

/// The day's number in the proleptic Gregorian calendar, 1 January of year 1
/// being day 1.
pub open spec fn day_number(d: Date) -> int {
    let y = d.year - 1;
    365 * y + y / 4 - y / 100 + y / 400 + days_before_month(d.year as int, d.month as int) + d.day
}

/// `Datelike::num_days_from_ce`: "the days in the proleptic Gregorian
/// calendar, with January 1, Year 1 (CE) as day 1".
#[verifier::external_body]
fn days_from_ce(d: Date) -> (n: i64)
    requires
        d.is_real(),
    ensures
        n == day_number(d),
{
    match chrono::NaiveDate::from_ymd_opt(d.year, d.month, d.day) {
        Some(day) => day.num_days_from_ce() as i64,
        None => 0,
    }
}

/// The day a series label names, or 1 January 1970 when it names none.
pub open spec fn label_day(label: Seq<char>) -> Date {
    match iso_date(label) {
        Some((y, m, d)) => Date { year: y as i32, month: m as u32, day: d as u32 },
        None => Date { year: 1970, month: 1, day: 1 },
    }
}

fn day_of_label(label: &str) -> (d: Date)
    ensures
        d == label_day(label@),
        d.is_real(),
{
    match parse_iso_date(label) {
        Some((y, m, d)) => Date { year: y, month: m, day: d },
        None => Date { year: 1970, month: 1, day: 1 },
    }
}

/// What the notes claim to have read.
#[derive(Debug, Clone, Default)]
pub struct Coverage {
    pub from: Option<Date>,
    pub to: Option<Date>,
    pub level: String,
    pub note: String,
}

impl Coverage {
    /// Every date in it is a real calendar day.
    pub open spec fn wf(&self) -> bool {
        &&& match self.from {
            Some(d) => d.is_real(),
            None => true,
        }
        &&& match self.to {
            Some(d) => d.is_real(),
            None => true,
        }
    }
}

/// The span the notes claim, in words.
pub open spec fn claimed_span(from: Option<Date>, to: Option<Date>) -> Seq<char> {
    match (from, to) {
        (Some(f), Some(t)) => day_text(f) + " &ndash; "@ + day_text(t),
        (Some(f), None) => "from "@ + day_text(f),
        (None, Some(t)) => "up to "@ + day_text(t),
        (None, None) => Seq::empty(),
    }
}

/// The larger of two integers.
pub open spec fn max_int(a: int, b: int) -> int {
    if a >= b { a } else { b }
}

/// The smaller of two integers.
pub open spec fn min_int(a: int, b: int) -> int {
    if a <= b { a } else { b }
}

/// How many of the archive's days the claim covers, when both ends of both
/// are known: "one month of eleven" is the fact, and a date range only implies it.
pub open spec fn claimed_share(
    from: Option<Date>,
    to: Option<Date>,
    first: Option<Seq<char>>,
    last: Option<Seq<char>>,
) -> Seq<char> {
    match (from, to, first, last) {
        (Some(f), Some(t), Some(a), Some(b)) => {
            let whole = max_int(day_number(label_day(b)) - day_number(label_day(a)), 1);
            let read = max_int(day_number(t) - day_number(f), 0) + 1;
            " &#183; "@ + crate::text::thousands_spec(min_int(read, whole + 1)) + " of "@
                + crate::text::thousands_spec(whole + 1) + " days"@
        },
        _ => Seq::empty(),
    }
}

/// The line under the coverage band, and the note after it.
pub open spec fn coverage_text_spec(c: Coverage, first: Option<Seq<char>>, last: Option<Seq<char>>) -> Seq<char> {
    "<p class=\"coverage\"><b>Read</b> "@ + claimed_span(c.from, c.to) + claimed_share(
        c.from,
        c.to,
        first,
        last,
    ) + (if c.level@.len() == 0 {
        Seq::empty()
    } else {
        " &#183; "@ + esc_spec(c.level@)
    }) + "</p>"@ + (if c.note@.len() == 0 {
        Seq::empty()
    } else {
        "<p class=\"caption\">"@ + esc_spec(c.note@) + "</p>"@
    })
}

proof fn lemma_day_number_range(d: Date)
    requires
        d.is_real(),
    ensures
        -100_000_000 <= day_number(d) <= 100_000_000,
{
    let y = d.year - 1;
    assert(-70000 <= y / 4 <= 70000) by (nonlinear_arith)
        requires
            -262144 <= y <= 262141,
    ;
    assert(-3000 <= y / 100 <= 3000) by (nonlinear_arith)
        requires
            -262144 <= y <= 262141,
    ;
    assert(-1000 <= y / 400 <= 1000) by (nonlinear_arith)
        requires
            -262144 <= y <= 262141,
    ;
    assert(0 <= days_before_month(d.year as int, d.month as int) <= 366) by {
        lemma_days_before_month_bound(d.year as int, d.month as int);
    }
    assert(-95_700_000 <= 365 * y <= 95_700_000);
    assert(day_number(d) == 365 * y + y / 4 - y / 100 + y / 400 + days_before_month(
        d.year as int,
        d.month as int,
    ) + d.day);
}

proof fn lemma_days_before_month_bound(y: int, m: int)
    ensures
        0 <= days_before_month(y, m) <= 31 * (if m <= 1 { 0 } else { m - 1 }),
    decreases m,
{
    if m > 1 {
        lemma_days_before_month_bound(y, m - 1);
    }
}

fn span_text(from: &Option<Date>, to: &Option<Date>) -> (out: String)
    requires
        match *from {
            Some(d) => d.wf(),
            None => true,
        },
        match *to {
            Some(d) => d.wf(),
            None => true,
        },
    ensures
        out@ == claimed_span(*from, *to),
{
    match (from, to) {
        (Some(f), Some(t)) => {
            let mut out = day_words(f);
            out.append(" &ndash; ");
            let b = day_words(t);
            out.append(b.as_str());
            out
        },
        (Some(f), None) => {
            let mut out = String::from_str("from ");
            let a = day_words(f);
            out.append(a.as_str());
            out
        },
        (None, Some(t)) => {
            let mut out = String::from_str("up to ");
            let b = day_words(t);
            out.append(b.as_str());
            out
        },
        (None, None) => String::new(),
    }
}

fn share_text(from: &Option<Date>, to: &Option<Date>, first: Option<&String>, last: Option<&String>) -> (out:
    String)
    requires
        match *from {
            Some(d) => d.is_real(),
            None => true,
        },
        match *to {
            Some(d) => d.is_real(),
            None => true,
        },
    ensures
        out@ == claimed_share(
            *from,
            *to,
            match first {
                Some(s) => Some(s@),
                None => None,
            },
            match last {
                Some(s) => Some(s@),
                None => None,
            },
        ),
{
    match (from, to, first, last) {
        (Some(f), Some(t), Some(a), Some(b)) => {
            let da = day_of_label(a.as_str());
            let db = day_of_label(b.as_str());
            proof {
                lemma_day_number_range(da);
                lemma_day_number_range(db);
                lemma_day_number_range(*f);
                lemma_day_number_range(*t);
            }
            let span = days_from_ce(db) - days_from_ce(da);
            let whole: i64 = if span >= 1 { span } else { 1 };
            let gap = days_from_ce(*t) - days_from_ce(*f);
            let read: i64 = (if gap >= 0 { gap } else { 0 }) + 1;
            let shown: i64 = if read <= whole + 1 { read } else { whole + 1 };
            let mut out = String::from_str(" &#183; ");
            let x = crate::text::thousands(shown);
            out.append(x.as_str());
            out.append(" of ");
            let y = crate::text::thousands(whole + 1);
            out.append(y.as_str());
            out.append(" days");
            out
        },
        _ => String::new(),
    }
}

/// The line under the coverage band: the span the notes claim, the share of
/// the archive's days that is, and the notes' own level and remark.
///
/// `first` and `last` are the labels of the archive's first and last days.
pub fn coverage_text(c: &Coverage, first: Option<&String>, last: Option<&String>) -> (out: String)
    requires
        c.wf(),
    ensures
        out@ == coverage_text_spec(
            *c,
            match first {
                Some(s) => Some(s@),
                None => None,
            },
            match last {
                Some(s) => Some(s@),
                None => None,
            },
        ),
{
    let mut out = String::from_str("<p class=\"coverage\"><b>Read</b> ");
    let span = span_text(&c.from, &c.to);
    out.append(span.as_str());
    let share = share_text(&c.from, &c.to, first, last);
    out.append(share.as_str());
    let ghost mid = out@;
    if !c.level.as_str().is_empty() {
        out.append(" &#183; ");
        let l = esc(c.level.as_str());
        out.append(l.as_str());
    }
    out.append("</p>");
    let ghost tail = out@;
    if !c.note.as_str().is_empty() {
        out.append("<p class=\"caption\">");
        let n = esc(c.note.as_str());
        out.append(n.as_str());
        out.append("</p>");
    }
    proof {
        assert(out@ =~= coverage_text_spec(
            *c,
            match first {
                Some(s) => Some(s@),
                None => None,
            },
            match last {
                Some(s) => Some(s@),
                None => None,
            },
        ));
    }
    out
}


/// What the timeline counts.
#[derive(Debug, Clone, Default)]
pub struct TimelineFacts {
    /// No dated messages at all.
    pub empty: bool,
    pub span_days: usize,
    pub active_days: usize,
    /// People who posted at least once.
    pub speakers: usize,
    /// Messages with an attachment.
    pub media_messages: i64,
    /// Reactions, all told.
    pub reactions: i64,
    pub replies: i64,
    /// Messages per month.
    pub months: Vec<Count>,
    /// The labels of the archive's first and last days.
    pub first: Option<String>,
    pub last: Option<String>,
}

/// The timeline's drawings, made elsewhere.
#[derive(Debug, Clone, Default)]
pub struct TimelineDrawn {
    pub rail: String,
    /// The band showing what the notes claim to have read.
    pub band: String,
    pub ribbon: String,
    pub axis: String,
    pub caption: String,
}

/// The headline figures under the ribbon.
pub open spec fn timeline_figures_spec(f: TimelineFacts) -> Seq<char> {
    "<ul class=\"figures\">"@ + figure_cells(
        seq![
            (thousands_spec((f.span_days as i64) as int), "days spanned"@),
            (thousands_spec((f.active_days as i64) as int), "days with messages"@),
            (thousands_spec((f.speakers as i64) as int), "people spoke"@),
            (thousands_spec(f.media_messages as int), "attachments"@),
            (thousands_spec(f.reactions as int), "reactions"@),
            (thousands_spec(f.replies as int), "replies"@),
        ],
    ) + "</ul>"@
}

fn timeline_figures(f: &TimelineFacts) -> (out: String)
    ensures
        out@ == timeline_figures_spec(*f),
{
    let mut items: Vec<(String, String)> = Vec::new();
    items.push(figure(thousands(f.span_days as i64), "days spanned"));
    items.push(figure(thousands(f.active_days as i64), "days with messages"));
    items.push(figure(thousands(f.speakers as i64), "people spoke"));
    items.push(figure(thousands(f.media_messages), "attachments"));
    items.push(figure(thousands(f.reactions), "reactions"));
    items.push(figure(thousands(f.replies), "replies"));
    proof {
        assert(pair_views(items@) =~= seq![
            (thousands_spec((f.span_days as i64) as int), "days spanned"@),
            (thousands_spec((f.active_days as i64) as int), "days with messages"@),
            (thousands_spec((f.speakers as i64) as int), "people spoke"@),
            (thousands_spec(f.media_messages as int), "attachments"@),
            (thousands_spec(f.reactions as int), "reactions"@),
            (thousands_spec(f.replies as int), "replies"@),
        ]);
    }
    figures(&items)
}

/// One row of the messages-per-month table.
pub open spec fn month_count_row(c: Count) -> Seq<Seq<char>> {
    seq![esc_spec(c.label@), crate::text::thousands_spec(c.n as int)]
}

/// What the notes claim to have read, under its band; nothing when the
/// notes state no coverage, since inventing "covers everything" from silence
/// is exactly the reading this block exists to prevent.
pub open spec fn coverage_block(cover: Option<Coverage>, band: Seq<char>, first: Option<String>, last: Option<String>) -> Seq<char> {
    match cover {
        None => Seq::empty(),
        Some(c) => band + coverage_text_spec(
            c,
            match first {
                Some(s) => Some(s@),
                None => None,
            },
            match last {
                Some(s) => Some(s@),
                None => None,
            },
        ),
    }
}

/// The timeline section.
pub open spec fn timeline_spec(
    f: TimelineFacts,
    d: TimelineDrawn,
    cover: Option<Coverage>,
    events: Seq<Event>,
    kinds: Seq<Seq<char>>,
    known: Seq<Seq<char>>,
    source: Seq<char>,
) -> Seq<char> {
    if f.empty {
        head_spec("Timeline"@, Seq::empty(), "whole"@) + "<p>No dated messages.</p></section>"@
    } else {
        let (listing, note) = listing_spec(events, kinds, known, source);
        head_spec("Timeline"@, crate::text::thousands_spec((f.span_days as i64) as int) + " days"@, "whole"@)
            + d.rail@ + coverage_block(cover, d.band@, f.first, f.last) + d.ribbon@ + d.axis@ + d.caption@
            + timeline_figures_spec(f) + note + listing + data_view_spec(
            "Messages per month"@,
            table_spec(
                seq![("Month"@, false), ("Messages"@, true)],
                f.months@.map_values(|c: Count| month_count_row(c)),
            ),
        ) + "</section>"@
    }
}

fn month_count_rows(months: &Vec<Count>) -> (out: Vec<Vec<String>>)
    ensures
        row_views(out@) == months@.map_values(|c: Count| month_count_row(c)),
{
    let ghost want = months@.map_values(|c: Count| month_count_row(c));
    let mut out: Vec<Vec<String>> = Vec::new();
    let mut i: usize = 0;
    while i < months.len()
        invariant
            want == months@.map_values(|c: Count| month_count_row(c)),
            i <= months.len(),
            out.len() == i,
            forall|q: int| 0 <= q < i ==> #[trigger] row_views(out@)[q] == want[q],
        decreases months.len() - i,
    {
        let mut row: Vec<String> = Vec::new();
        row.push(esc(months[i].label.as_str()));
        row.push(crate::text::thousands(months[i].n));
        let ghost before = out@;
        out.push(row);
        proof {
            assert(row_views(out@)[i as int] =~= want[i as int]);
            assert forall|q: int| 0 <= q < i + 1 implies #[trigger] row_views(out@)[q] == want[q] by {
                if q < i {
                    assert(out@[q] == before[q]);
                    assert(row_views(before)[q] == want[q]);
                }
            }
        }
        i = i + 1;
    }
    proof {
        assert(row_views(out@) =~= want);
    }
    out
}

/// The timeline section: the whole span on one axis, the events pinned to
/// it, what the notes claim to have read, and the months as numbers.
pub fn timeline(
    f: &TimelineFacts,
    d: &TimelineDrawn,
    cover: &Option<Coverage>,
    events: &Vec<Event>,
    kinds: &Vec<String>,
    names: &Names,
    source: &str,
) -> (out: String)
    requires
        events_wf(events@),
        match *cover {
            Some(c) => c.wf(),
            None => true,
        },
    ensures
        out@ == timeline_spec(*f, *d, *cover, events@, views(kinds@), names.names(), source@),
{
    if f.empty {
        let mut out = head("Timeline", "", "whole");
        out.append("<p>No dated messages.</p></section>");
        proof {
            reveal_strlit("Timeline");
            reveal_strlit("whole");
            reveal_strlit("");
            assert(""@ =~= Seq::<char>::empty());
        }
        return out;
    }
    let (listing, note) = event_listing(events, kinds, names, source);
    let mut count = crate::text::thousands(f.span_days as i64);
    count.append(" days");
    let mut out = head("Timeline", count.as_str(), "whole");
    out.append(d.rail.as_str());
    let ghost before = out@;
    match cover {
        Some(c) => {
            out.append(d.band.as_str());
            let text = coverage_text(c, f.first.as_ref(), f.last.as_ref());
            out.append(text.as_str());
        },
        None => {},
    }
    proof {
        assert(out@ =~= before + coverage_block(*cover, d.band@, f.first, f.last));
    }
    out.append(d.ribbon.as_str());
    out.append(d.axis.as_str());
    out.append(d.caption.as_str());
    let figs = timeline_figures(f);
    out.append(figs.as_str());
    out.append(note.as_str());
    out.append(listing.as_str());
    let mut headers: Vec<(String, bool)> = Vec::new();
    headers.push((String::from_str("Month"), false));
    headers.push((String::from_str("Messages"), true));
    proof {
        assert(header_views(headers@) =~= seq![("Month"@, false), ("Messages"@, true)]);
    }
    let rows = month_count_rows(&f.months);
    let t = table(&headers, &rows);
    let v = data_view("Messages per month", t.as_str());
    out.append(v.as_str());
    out.append("</section>");
    proof {
        reveal_strlit("Timeline");
        reveal_strlit("whole");
        assert(out@ =~= timeline_spec(*f, *d, *cover, events@, views(kinds@), names.names(), source@));
    }
    out
}

} // verus!
