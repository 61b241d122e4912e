//! One row per topic, on the same axis and the same shading scale as the
//! people, and when each topic is awake.

use vstd::prelude::*;

use crate::scale::{caption_spec, Quantiles};

use crate::model::Busiest;
use crate::rhythm::{legend, legend_spec};
use crate::sections::{head, head_spec, short, short_spec};
use crate::text::{dec, esc, esc_spec, natural, thousands, thousands_spec};
use crate::time::{pretty_date, pretty_date_spec};

verus! {

/// One topic, as the topics table reads it.
#[derive(Debug, Clone, Default)]
pub struct TopicRow {
    pub name: String,
    pub messages: usize,
    pub voices: usize,
    pub active_days: usize,
    /// The topic's own busiest day.
    pub busiest: Busiest,
    pub media: usize,
    pub replies: usize,
    pub reactions: i64,
    /// Who posted most in it.
    pub top: String,
    /// Messages by hour of day.
    pub per_hour: Vec<i64>,
}

/// The cells of a topic's row drawn or measured elsewhere: the presence
/// strip and the words per message.
#[derive(Debug, Clone, Default)]
pub struct TopicCells {
    pub presence: String,
    pub words: String,
}

/// A count as the page prints it.
pub open spec fn count_text(n: usize) -> Seq<char> {
    thousands_spec((n as i64) as int)
}

/// The topic's own busiest day; blank when nothing was ever posted, since
/// "0 on 1970-01-01" is worse than an empty cell.
pub open spec fn peak_cell(b: Busiest) -> Seq<char> {
    if b.messages == 0 {
        Seq::empty()
    } else {
        thousands_spec(b.messages as int) + " <span class=\"at\">"@ + esc_spec(pretty_date_spec(b.date@))
            + "</span>"@
    }
}

/// One topic's row.
pub open spec fn topic_row_spec(t: TopicRow, c: TopicCells) -> Seq<char> {
    "<tr><td class=\"name\">"@ + esc_spec(t.name@) + "</td><td class=\"presence\">"@ + c.presence@
        + "</td><td class=\"n\">"@ + count_text(t.messages) + "</td><td class=\"n\">"@ + count_text(t.voices)
        + "</td><td class=\"n\">"@ + count_text(t.active_days) + "</td><td class=\"n\">"@ + peak_cell(
        t.busiest,
    ) + "</td><td class=\"n\">"@ + c.words@ + "</td><td class=\"n\">"@ + count_text(t.media)
        + "</td><td class=\"n\">"@ + count_text(t.replies) + "</td><td class=\"n\">"@ + thousands_spec(
        t.reactions as int,
    ) + "</td><td>"@ + short_spec(t.top@, 22) + "</td></tr>"@
}

fn topic_row(t: &TopicRow, c: &TopicCells) -> (out: String)
    ensures
        out@ == topic_row_spec(*t, *c),
{
    let mut out = String::from_str("<tr><td class=\"name\">");
    let n = esc(t.name.as_str());
    out.append(n.as_str());
    out.append("</td><td class=\"presence\">");
    out.append(c.presence.as_str());
    out.append("</td><td class=\"n\">");
    let a = thousands(t.messages as i64);
    out.append(a.as_str());
    out.append("</td><td class=\"n\">");
    let b = thousands(t.voices as i64);
    out.append(b.as_str());
    out.append("</td><td class=\"n\">");
    let d = thousands(t.active_days as i64);
    out.append(d.as_str());
    out.append("</td><td class=\"n\">");
    let ghost before_peak = out@;
    if t.busiest.messages != 0 {
        let m = thousands(t.busiest.messages);
        out.append(m.as_str());
        out.append(" <span class=\"at\">");
        let p = pretty_date(t.busiest.date.as_str());
        let e = esc(p.as_str());
        out.append(e.as_str());
        out.append("</span>");
    }
    proof {
        assert(out@ =~= before_peak + peak_cell(t.busiest));
    }
    out.append("</td><td class=\"n\">");
    out.append(c.words.as_str());
    out.append("</td><td class=\"n\">");
    let f = thousands(t.media as i64);
    out.append(f.as_str());
    out.append("</td><td class=\"n\">");
    let g = thousands(t.replies as i64);
    out.append(g.as_str());
    out.append("</td><td class=\"n\">");
    let h = thousands(t.reactions);
    out.append(h.as_str());
    out.append("</td><td>");
    let s = short(t.top.as_str(), 22);
    out.append(s.as_str());
    out.append("</td></tr>");
    proof {
        assert(out@ =~= topic_row_spec(*t, *c));
    }
    out
}

/// Every topic's row, in order.
pub open spec fn topic_rows(rows: Seq<TopicRow>, cells: Seq<TopicCells>, k: nat) -> Seq<char>
    decreases k,
{
    if k == 0 {
        Seq::empty()
    } else {
        topic_rows(rows, cells, (k - 1) as nat) + topic_row_spec(rows[k - 1], cells[k - 1])
    }
}

/// The head of the topics table.
pub open spec fn topic_headers() -> Seq<char> {
    "<tr><th>Topic</th><th>Activity</th><th class=\"n\">Messages</th><th class=\"n\">Voices</th><th class=\"n\">Active days</th><th class=\"n\">Busiest day</th><th class=\"n\">Words/msg</th><th class=\"n\">Media</th><th class=\"n\">Replies</th><th class=\"n\">Reactions</th><th>Loudest</th></tr>"@
}

/// The topics section, around its scale caption and its clock grid (markup
/// drawn elsewhere); nothing at all when there are no topics.
pub open spec fn topics_spec(rows: Seq<TopicRow>, cells: Seq<TopicCells>, caption: Seq<char>, clocks: Seq<char>) -> Seq<
    char,
> {
    if rows.len() == 0 {
        Seq::empty()
    } else {
        head_spec("Topics"@, dec(rows.len()), "topics"@) + "<table><thead>"@ + topic_headers()
            + "</thead><tbody>"@ + topic_rows(rows, cells, rows.len()) + "</tbody></table>"@
            + "<p class=\"caption\">Same time axis as every other row on this page, and one shading scale across the four. "@
            + esc_spec(caption) + "</p>"@ + clocks + "</section>"@
    }
}

/// The topics section. `cells[i]` holds the cells drawn elsewhere for `rows[i]`.
pub fn topics(rows: &Vec<TopicRow>, cells: &Vec<TopicCells>, scale: &Quantiles, clocks: &str) -> (out: String)
    requires
        cells.len() == rows.len(),
    ensures
        out@ == topics_spec(rows@, cells@, caption_spec(scale.edges@, scale.top, "messages in a day"@), clocks@),
{
    let caption_text = scale.caption("messages in a day");
    let caption = caption_text.as_str();
    if rows.len() == 0 {
        return String::new();
    }
    let mut body = String::new();
    let mut i: usize = 0;
    while i < rows.len()
        invariant
            cells.len() == rows.len(),
            i <= rows.len(),
            body@ == topic_rows(rows@, cells@, i as nat),
        decreases rows.len() - i,
    {
        let line = topic_row(&rows[i], &cells[i]);
        body.append(line.as_str());
        i = i + 1;
    }
    let count = natural(rows.len() as u64);
    let mut out = head("Topics", count.as_str(), "topics");
    out.append("<table><thead>");
    out.append(
        "<tr><th>Topic</th><th>Activity</th><th class=\"n\">Messages</th><th class=\"n\">Voices</th><th class=\"n\">Active days</th><th class=\"n\">Busiest day</th><th class=\"n\">Words/msg</th><th class=\"n\">Media</th><th class=\"n\">Replies</th><th class=\"n\">Reactions</th><th>Loudest</th></tr>",
    );
    out.append("</thead><tbody>");
    out.append(body.as_str());
    out.append("</tbody></table>");
    out.append(
        "<p class=\"caption\">Same time axis as every other row on this page, and one shading scale across the four. ",
    );
    let e = esc(caption);
    out.append(e.as_str());
    out.append("</p>");
    out.append(clocks);
    out.append("</section>");
    proof {
        reveal_strlit("Topics");
        reveal_strlit("topics");
    }
    out
}

/// Whether no topic ever posted at any hour: then the clock grid would be
/// every cell track, a grid of nothing, and is left out.
pub open spec fn all_silent_spec(rows: Seq<TopicRow>) -> bool {
    forall|i: int, h: int| 0 <= i < rows.len() && 0 <= h < rows[i].per_hour.len() ==> #[trigger] rows[i].per_hour@[h] == 0
}

/// Whether no topic ever posted at any hour.
pub fn all_silent(rows: &Vec<TopicRow>) -> (r: bool)
    ensures
        r == all_silent_spec(rows@),
{
    let mut i: usize = 0;
    while i < rows.len()
        invariant
            i <= rows.len(),
            forall|p: int, h: int| 0 <= p < i && 0 <= h < rows@[p].per_hour.len() ==> #[trigger] rows@[p].per_hour@[h] == 0,
        decreases rows.len() - i,
    {
        let mut h: usize = 0;
        while h < rows[i].per_hour.len()
            invariant
                i < rows.len(),
                h <= rows@[i as int].per_hour.len(),
                forall|q: int| 0 <= q < h ==> #[trigger] rows@[i as int].per_hour@[q] == 0,
            decreases rows@[i as int].per_hour.len() - h,
        {
            if rows[i].per_hour[h] != 0 {
                return false;
            }
            h = h + 1;
        }
        i = i + 1;
    }
    true
}

/// The clock grid's frame: heading, the grid (markup), the legend and the
/// caption on why each row is on its own scale.
pub open spec fn clocks_frame_spec(grid: Seq<char>) -> Seq<char> {
    "<h3>When each topic is awake</h3><div class=\"split\"><div>"@ + grid + "</div><aside>"@ + legend_spec(
        5,
        "this row's quietest"@,
        "its busiest"@,
    )
        + "<p class=\"caption\">One row per topic, one cell per hour of the day, summed over the whole archive. <b>Each row is scaled to its own busiest hour</b>, so the rows compare by shape and not by shade: a bright cell in a small topic is not the same number of messages as a bright cell in a large one. Hover any cell for both.</p></aside></div>"@
}

/// The clock grid's frame.
pub fn clocks_frame(grid: &str) -> (out: String)
    ensures
        out@ == clocks_frame_spec(grid@),
{
    let mut out = String::from_str("<h3>When each topic is awake</h3><div class=\"split\"><div>");
    out.append(grid);
    out.append("</div><aside>");
    let l = legend(5, "this row's quietest", "its busiest");
    out.append(l.as_str());
    out.append(
        "<p class=\"caption\">One row per topic, one cell per hour of the day, summed over the whole archive. <b>Each row is scaled to its own busiest hour</b>, so the rows compare by shape and not by shade: a bright cell in a small topic is not the same number of messages as a bright cell in a large one. Hover any cell for both.</p></aside></div>",
    );
    out
}

} // verus!
