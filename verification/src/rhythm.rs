//! The clock and the calendar, the topics table, arrivals and departures,
//! and the conversation section's notes: the parts of those sections that
//! are words and counts rather than drawings.

use vstd::prelude::*;

use crate::scale::{caption_spec, Quantiles};

use crate::sections::{argmax, data_view, data_view_spec, head, head_spec, header_views, row_views, table, table_spec};
use crate::text::{dec, esc, esc_spec, natural, signed_dec, thousands, thousands_spec};
use crate::time::{padded, pretty_date, pretty_date_spec, push_padded};

verus! {

/// A shading legend: the low word, a track swatch, one swatch per step, the
/// high word.
pub open spec fn legend_spec(steps: nat, low: Seq<char>, high: Seq<char>) -> Seq<char> {
    "<p class=\"legend\"><span>"@ + esc_spec(low) + "</span><i class=\"swatch-track\"></i>"@
        + swatches(steps) + "<span>"@ + esc_spec(high) + "</span></p>"@
}

/// One swatch per ramp step, `--r1` upwards.
pub open spec fn swatches(steps: nat) -> Seq<char>
    decreases steps,
{
    if steps == 0 {
        Seq::empty()
    } else {
        swatches((steps - 1) as nat) + "<i style=\"background:var(--r"@ + dec(steps) + ")\"></i>"@
    }
}

/// A shading legend under a grid or a table of presence strips.
pub fn legend(steps: usize, low: &str, high: &str) -> (out: String)
    ensures
        out@ == legend_spec(steps as nat, low@, high@),
{
    let mut out = String::from_str("<p class=\"legend\"><span>");
    let l = esc(low);
    out.append(l.as_str());
    out.append("</span><i class=\"swatch-track\"></i>");
    let ghost open = out@;
    let mut i: usize = 0;
    while i < steps
        invariant
            i <= steps,
            out@ == open + swatches(i as nat),
        decreases steps - i,
    {
        out.append("<i style=\"background:var(--r");
        let n = natural((i + 1) as u64);
        out.append(n.as_str());
        out.append(")\"></i>");
        i = i + 1;
    }
    out.append("<span>");
    let h = esc(high);
    out.append(h.as_str());
    out.append("</span></p>");
    out
}

/// The days of the week, in full and plural.
pub open spec fn weekday_plural(d: nat) -> Seq<char> {
    if d == 0 {
        "Mondays"@
    } else if d == 1 {
        "Tuesdays"@
    } else if d == 2 {
        "Wednesdays"@
    } else if d == 3 {
        "Thursdays"@
    } else if d == 4 {
        "Fridays"@
    } else if d == 5 {
        "Saturdays"@
    } else {
        "Sundays"@
    }
}

/// `at` holds a maximum, and nothing before it does.
pub open spec fn is_first_peak(values: Seq<i64>, at: int) -> bool {
    &&& 0 <= at < values.len()
    &&& forall|k: int| 0 <= k < values.len() ==> values[k] <= values[at]
    &&& forall|k: int| 0 <= k < at ==> values[k] < values[at]
}

/// The index of the first maximum, zero for an empty list.
pub open spec fn first_peak(values: Seq<i64>) -> nat {
    if values.len() == 0 {
        0
    } else {
        (choose|at: int| #[trigger] is_first_peak(values, at)) as nat
    }
}

proof fn lemma_first_peak(values: Seq<i64>, at: int)
    requires
        0 <= at < values.len(),
        forall|k: int| 0 <= k < values.len() ==> values[k] <= values[at],
        forall|k: int| 0 <= k < at ==> values[k] < values[at],
    ensures
        first_peak(values) == at,
{
    assert(is_first_peak(values, at));
    let p = choose|p: int| #[trigger] is_first_peak(values, p);
    assert(is_first_peak(values, p));
    if p < at {
        assert(values[p] < values[at]);
        assert(values[at] <= values[p]);
    }
    if at < p {
        assert(values[at] < values[p]);
        assert(values[p] <= values[at]);
    }
}

/// The count beside the rhythm heading: the busiest hour and the busiest day.
pub open spec fn rhythm_count_spec(per_hour: Seq<i64>, per_weekday: Seq<i64>) -> Seq<char> {
    let day = first_peak(per_weekday);
    "busiest at "@ + padded(first_peak(per_hour), 2) + ":00, on "@ + weekday_plural(
        if day < 6 { day } else { 6 },
    )
}

/// The count names the busiest hour and the busiest day of the week: with `h`
/// the first hour holding the most messages and `d` the first day doing so,
/// counting from Monday, it reads `busiest at` the hour `h` and `on` the
/// `d`-th of Mondays to Sundays.
pub proof fn law_rhythm_count_names_the_busiest(per_hour: Seq<i64>, per_weekday: Seq<i64>, h: int, d: int)
    requires
        0 <= h < per_hour.len(),
        forall|k: int| 0 <= k < per_hour.len() ==> per_hour[k] <= per_hour[h],
        forall|k: int| 0 <= k < h ==> per_hour[k] < per_hour[h],
        per_weekday.len() == 7,
        0 <= d < 7,
        forall|k: int| 0 <= k < 7 ==> per_weekday[k] <= per_weekday[d],
        forall|k: int| 0 <= k < d ==> per_weekday[k] < per_weekday[d],
    ensures
        rhythm_count_spec(per_hour, per_weekday) == "busiest at "@ + padded(h as nat, 2) + ":00, on "@ + seq![
            "Mondays"@,
            "Tuesdays"@,
            "Wednesdays"@,
            "Thursdays"@,
            "Fridays"@,
            "Saturdays"@,
            "Sundays"@,
        ][d],
{
    lemma_first_peak(per_hour, h);
    lemma_first_peak(per_weekday, d);
}

fn peak(values: &[i64]) -> (at: usize)
    ensures
        at == first_peak(values@),
{
    let at = argmax(values);
    proof {
        if values.len() > 0 {
            lemma_first_peak(values@, at as int);
        }
    }
    at
}

/// The count beside the rhythm heading: `busiest at 21:00, on Tuesdays`,
/// each the first of its maxima.
pub fn rhythm_count(per_hour: &[i64], per_weekday: &[i64]) -> (out: String)
    ensures
        out@ == rhythm_count_spec(per_hour@, per_weekday@),
{
    let hour = peak(per_hour);
    let day = peak(per_weekday);
    let mut out = String::from_str("busiest at ");
    push_padded(&mut out, hour as u64, 2);
    out.append(":00, on ");
    let d = if day < 6 { day } else { 6 };
    out.append(
        if d == 0 {
            "Mondays"
        } else if d == 1 {
            "Tuesdays"
        } else if d == 2 {
            "Wednesdays"
        } else if d == 3 {
            "Thursdays"
        } else if d == 4 {
            "Fridays"
        } else if d == 5 {
            "Saturdays"
        } else {
            "Sundays"
        },
    );
    proof {
        assert(out@ =~= rhythm_count_spec(per_hour@, per_weekday@));
    }
    out
}

/// One row of the hour-of-day table.
pub open spec fn hour_row(h: nat, n: i64) -> Seq<Seq<char>> {
    seq![padded(h, 2) + ":00"@, thousands_spec(n as int)]
}

/// The hour-of-day table's rows: `00:00` and its count, and so on.
pub fn hour_rows(per_hour: &[i64]) -> (out: Vec<Vec<String>>)
    ensures
        out.len() == per_hour.len(),
        forall|h: int|
            0 <= h < out.len() ==> #[trigger] crate::sections::row_views(out@)[h] == hour_row(
                h as nat,
                per_hour@[h],
            ),
{
    let mut out: Vec<Vec<String>> = Vec::new();
    let mut h: usize = 0;
    while h < per_hour.len()
        invariant
            h <= per_hour.len(),
            out.len() == h,
            forall|q: int|
                0 <= q < h ==> #[trigger] crate::sections::row_views(out@)[q] == hour_row(
                    q as nat,
                    per_hour@[q],
                ),
        decreases per_hour.len() - h,
    {
        let mut label = String::new();
        push_padded(&mut label, h as u64, 2);
        label.append(":00");
        let mut row: Vec<String> = Vec::new();
        row.push(label);
        row.push(thousands(per_hour[h]));
        let ghost before = out@;
        out.push(row);
        proof {
            assert(crate::sections::row_views(out@)[h as int] =~= hour_row(h as nat, per_hour@[h as int]));
            assert forall|q: int| 0 <= q < h + 1 implies #[trigger] crate::sections::row_views(out@)[q]
                == hour_row(q as nat, per_hour@[q]) by {
                if q < h {
                    assert(out@[q] == before[q]);
                    assert(crate::sections::row_views(before)[q] == hour_row(q as nat, per_hour@[q]));
                }
            }
        }
        h = h + 1;
    }
    out
}

/// Replies whose target is not in the export.
pub open spec fn orphan_note_spec(orphans: i64) -> Seq<char> {
    if orphans == 0 {
        Seq::empty()
    } else {
        "<p class=\"note\">"@ + signed_dec(orphans as int)
            + " replies point at a message that is not in this export, so they have no target in any figure above.</p>"@
    }
}

/// Replies whose target is not in the export, so they have no target in
/// any figure.
pub fn orphan_note(orphans: i64) -> (out: String)
    ensures
        out@ == orphan_note_spec(orphans),
{
    if orphans == 0 {
        return String::new();
    }
    let mut out = String::from_str("<p class=\"note\">");
    let n = crate::text::decimal(orphans);
    out.append(n.as_str());
    out.append(
        " replies point at a message that is not in this export, so they have no target in any figure above.</p>",
    );
    out
}

/// The opening of the conversation section: its heading with the count of
/// bursts, and what a burst is.
pub open spec fn conversation_open_spec(sessions: usize) -> Seq<char> {
    head_spec("Conversation"@, thousands_spec((sessions as i64) as int) + " bursts"@, "talk"@)
        + "<p class=\"lede\">A burst is talk with no gap longer than half an hour, counted per topic &#8212; two topics running at once are two conversations.</p>"@
}

/// The opening of the conversation section.
pub fn conversation_open(sessions: usize) -> (out: String)
    ensures
        out@ == conversation_open_spec(sessions),
{
    let mut count = thousands(sessions as i64);
    count.append(" bursts");
    let mut out = head("Conversation", count.as_str(), "talk");
    out.append(
        "<p class=\"lede\">A burst is talk with no gap longer than half an hour, counted per topic &#8212; two topics running at once are two conversations.</p>",
    );
    proof {
        reveal_strlit("Conversation");
        reveal_strlit("talk");
    }
    out
}


/// The four drawings of the rhythm section, made elsewhere.
#[derive(Debug, Clone, Default)]
pub struct RhythmCharts {
    pub hour: String,
    pub weekday: String,
    pub heat: String,
    pub calendar: String,
}

/// The rhythm section: hour of day, day of week, both at once, and every
/// day, each drawing beside its legend and caption, and the hours as numbers;
/// nothing for an archive with no dated messages.
pub open spec fn rhythm_spec(
    empty: bool,
    per_hour: Seq<i64>,
    per_weekday: Seq<i64>,
    c: RhythmCharts,
    grid_caption: Seq<char>,
    day_caption: Seq<char>,
) -> Seq<char> {
    if empty { Seq::empty() } else { rhythm_body(per_hour, per_weekday, c, grid_caption, day_caption) }
}

/// The rhythm section of an archive with dated messages.
pub open spec fn rhythm_body(
    per_hour: Seq<i64>,
    per_weekday: Seq<i64>,
    c: RhythmCharts,
    grid_caption: Seq<char>,
    day_caption: Seq<char>,
) -> Seq<char> {
    head_spec("Rhythm"@, rhythm_count_spec(per_hour, per_weekday), "rhythm"@)
        + "<div class=\"cols2\"><div><h3>Hour of day</h3>"@ + c.hour@
        + "<p class=\"caption\">Local time, as the export recorded it.</p></div><div><h3>Day of week</h3>"@
        + c.weekday@
        + "<p class=\"caption\">Every message, across the whole archive.</p></div></div><h3>Both at once</h3><div class=\"split\"><div>"@
        + c.heat@ + "</div><aside>"@ + legend_spec(5, "quiet"@, "busy"@)
        + "<p class=\"caption\">Each cell is one hour of one weekday, summed over the whole archive. An empty cell is an hour in which nothing was ever said. "@
        + esc_spec(grid_caption) + "</p></aside></div><h3>Every day</h3><div class=\"split\"><div>"@
        + c.calendar@ + "</div><aside>"@ + legend_spec(5, "silent"@, "busiest"@)
        + "<p class=\"caption\">One square per day. "@ + esc_spec(day_caption) + "</p></aside></div>"@
        + data_view_spec(
        "Hour of day, as numbers"@,
        table_spec(
            seq![("Hour"@, false), ("Messages"@, true)],
            Seq::new(per_hour.len(), |h: int| hour_row(h as nat, per_hour[h])),
        ),
    ) + "</section>"@
}

/// The rhythm section around its four drawings, with the cut points of the
/// shading scales of the heat grid and the calendar under their legends.
/// `empty` says the archive has no dated messages, and then there is nothing
/// to draw.
pub fn rhythm(
    empty: bool,
    per_hour: &[i64],
    per_weekday: &[i64],
    c: &RhythmCharts,
    grid_scale: &Quantiles,
    day_scale: &Quantiles,
) -> (out: String)
    ensures
        out@ == rhythm_spec(
            empty,
            per_hour@,
            per_weekday@,
            *c,
            caption_spec(grid_scale.edges@, grid_scale.top, "messages"@),
            caption_spec(day_scale.edges@, day_scale.top, "messages"@),
        ),
{
    if empty {
        return String::new();
    }
    let grid_text = grid_scale.caption("messages");
    let grid_caption = grid_text.as_str();
    let day_text = day_scale.caption("messages");
    let day_caption = day_text.as_str();
    let count = rhythm_count(per_hour, per_weekday);
    let mut out = head("Rhythm", count.as_str(), "rhythm");
    out.append("<div class=\"cols2\"><div><h3>Hour of day</h3>");
    out.append(c.hour.as_str());
    out.append("<p class=\"caption\">Local time, as the export recorded it.</p></div><div><h3>Day of week</h3>");
    out.append(c.weekday.as_str());
    out.append(
        "<p class=\"caption\">Every message, across the whole archive.</p></div></div><h3>Both at once</h3><div class=\"split\"><div>",
    );
    out.append(c.heat.as_str());
    out.append("</div><aside>");
    let l1 = legend(5, "quiet", "busy");
    out.append(l1.as_str());
    out.append(
        "<p class=\"caption\">Each cell is one hour of one weekday, summed over the whole archive. An empty cell is an hour in which nothing was ever said. ",
    );
    let g = esc(grid_caption);
    out.append(g.as_str());
    out.append("</p></aside></div><h3>Every day</h3><div class=\"split\"><div>");
    out.append(c.calendar.as_str());
    out.append("</div><aside>");
    let l2 = legend(5, "silent", "busiest");
    out.append(l2.as_str());
    out.append("<p class=\"caption\">One square per day. ");
    let d = esc(day_caption);
    out.append(d.as_str());
    out.append("</p></aside></div>");
    let rows = hour_rows(per_hour);
    let mut headers: Vec<(String, bool)> = Vec::new();
    headers.push((String::from_str("Hour"), false));
    headers.push((String::from_str("Messages"), true));
    proof {
        assert(header_views(headers@) =~= seq![("Hour"@, false), ("Messages"@, true)]);
        assert(row_views(rows@) =~= Seq::new(per_hour@.len(), |h: int| hour_row(h as nat, per_hour@[h])));
    }
    let t = table(&headers, &rows);
    let v = data_view("Hour of day, as numbers", t.as_str());
    out.append(v.as_str());
    out.append("</section>");
    proof {
        reveal_strlit("Rhythm");
        reveal_strlit("rhythm");
        assert(out@ =~= rhythm_body(per_hour@, per_weekday@, *c, grid_caption@, day_caption@));
    }
    out
}

} // verus!
