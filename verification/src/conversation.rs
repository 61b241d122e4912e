//! Who answers whom, how fast, and who is in contact with whom: the figures,
//! the choice of rows for each chart, and the words around the drawings. The
//! bars, the grid and the network are drawn elsewhere, from the rows chosen
//! here.

use vstd::prelude::*;

use crate::matrix::{matrix_frame, matrix_frame_spec};
use crate::model::{Edge, Latency, Starter};
use crate::rhythm::{conversation_open, conversation_open_spec, orphan_note, orphan_note_spec};
use crate::sections::{figure, figure_cells, figures, pair_views};
use crate::text::{dec, esc, esc_spec, natural, thousands, thousands_spec};

verus! {

/// How many people the wait chart shows.
pub const WAIT_ROWS: usize = 12;

/// How many people the starters chart shows.
pub const STARTER_ROWS: usize = 10;

/// The counts and lists the conversation section is made from.
#[derive(Debug, Clone, Default)]
pub struct TalkFacts {
    pub replies: i64,
    pub sessions: usize,
    pub session_median_messages: i64,
    /// Median reply time per person, quickest first.
    pub fastest: Vec<Latency>,
    /// Who opens bursts of talk, most often first.
    pub starters: Vec<Starter>,
    /// Who replies to whom, and how often.
    pub edges: Vec<Edge>,
    pub orphan_replies: i64,
    /// Whether the contact network has anyone in it.
    pub has_network: bool,
    /// How many of the least-connected people the network leaves out.
    pub hidden: usize,
}

/// What the section shows that is drawn, or worked out in fractions, elsewhere.
#[derive(Debug, Clone, Default)]
pub struct TalkDrawn {
    /// The share of messages that are replies, as markup.
    pub reply_share: String,
    /// The median time to reply, as words.
    pub latency_median: String,
    /// The 90th-percentile time to reply, as words.
    pub latency_p90: String,
    /// The quickest person's median wait, as words.
    pub quickest: String,
    /// The bars of the wait chart, over `wait_rows`.
    pub waits: String,
    /// The bars of the starters chart, over `starter_rows`.
    pub starters: String,
    /// The who-answers-whom grid, over `answer_matrix`.
    pub matrix: String,
    /// The contact network.
    pub network: String,
}

/// The smaller of a length and a cap.
pub open spec fn capped(len: int, cap: int) -> int {
    if len < cap { len } else { cap }
}

/// The wait chart's rows: the quickest twelve, slowest of them first, so a
/// bar's length is the wait itself.
pub open spec fn wait_rows_spec(fastest: Seq<Latency>) -> Seq<(Seq<char>, i64)> {
    let n = capped(fastest.len() as int, WAIT_ROWS as int);
    Seq::new(n as nat, |i: int| (fastest[n - 1 - i].name@, fastest[n - 1 - i].median))
}

/// The starters chart's rows: the first ten, in the order given.
pub open spec fn starter_rows_spec(starters: Seq<Starter>) -> Seq<(Seq<char>, i64)> {
    let n = capped(starters.len() as int, STARTER_ROWS as int);
    Seq::new(n as nat, |i: int| (starters[i].name@, starters[i].count))
}

/// The wait chart shows the quickest twelve people, or everybody when there
/// are fewer, with the quickest on the last row: read from the bottom up it is
/// the head of the quickest-first list.
pub proof fn law_wait_rows_end_with_the_quickest(fastest: Seq<Latency>)
    ensures
        wait_rows_spec(fastest).len() == (if fastest.len() < 12 { fastest.len() as int } else { 12 }),
        forall|i: int|
            #![trigger fastest[i]]
            0 <= i < wait_rows_spec(fastest).len() ==> wait_rows_spec(fastest)[wait_rows_spec(fastest).len() - 1 - i]
                == (fastest[i].name@, fastest[i].median),
{
}

/// The starters chart shows the first ten starters, or all of them when there
/// are fewer, in the order given.
pub proof fn law_starter_rows_are_the_first_ten(starters: Seq<Starter>)
    ensures
        starter_rows_spec(starters).len() == (if starters.len() < 10 { starters.len() as int } else { 10 }),
        forall|i: int|
            #![trigger starters[i]]
            0 <= i < starter_rows_spec(starters).len() ==> starter_rows_spec(starters)[i] == (
                starters[i].name@,
                starters[i].count,
            ),
{
}

/// The views of `(name, number)` rows.
pub open spec fn row_pairs(rows: Seq<(String, i64)>) -> Seq<(Seq<char>, i64)> {
    rows.map_values(|r: (String, i64)| (r.0@, r.1))
}

/// The wait chart's rows: the first twelve of `fastest`, reversed.
pub fn wait_rows(fastest: &Vec<Latency>) -> (out: Vec<(String, i64)>)
    ensures
        row_pairs(out@) == wait_rows_spec(fastest@),
{
    let n: usize = if fastest.len() < WAIT_ROWS { fastest.len() } else { WAIT_ROWS };
    let mut out: Vec<(String, i64)> = Vec::new();
    let mut i: usize = 0;
    while i < n
        invariant
            n == capped(fastest@.len() as int, WAIT_ROWS as int),
            i <= n,
            row_pairs(out@) == wait_rows_spec(fastest@).take(i as int),
        decreases n - i,
    {
        let row = &fastest[n - 1 - i];
        let name = row.name.clone();
        let ghost prev = out@;
        out.push((name, row.median));
        proof {
            assert(out@ == prev.push((name, row.median)));
            assert(row_pairs(out@) =~= row_pairs(prev).push((name@, row.median)));
            assert(row_pairs(out@) =~= wait_rows_spec(fastest@).take(i + 1));
        }
        i = i + 1;
    }
    proof {
        assert(wait_rows_spec(fastest@).take(n as int) =~= wait_rows_spec(fastest@));
    }
    out
}

/// The starters chart's rows: the first ten, in the order given.
pub fn starter_rows(starters: &Vec<Starter>) -> (out: Vec<(String, i64)>)
    ensures
        row_pairs(out@) == starter_rows_spec(starters@),
{
    let n: usize = if starters.len() < STARTER_ROWS { starters.len() } else { STARTER_ROWS };
    let mut out: Vec<(String, i64)> = Vec::new();
    let mut i: usize = 0;
    while i < n
        invariant
            n == capped(starters@.len() as int, STARTER_ROWS as int),
            i <= n,
            row_pairs(out@) == starter_rows_spec(starters@).take(i as int),
        decreases n - i,
    {
        let name = starters[i].name.clone();
        let ghost prev = out@;
        out.push((name, starters[i].count));
        proof {
            assert(out@ == prev.push((name, starters@[i as int].count)));
            assert(row_pairs(out@) =~= row_pairs(prev).push((name@, starters@[i as int].count)));
            assert(row_pairs(out@) =~= starter_rows_spec(starters@).take(i + 1));
        }
        i = i + 1;
    }
    proof {
        assert(starter_rows_spec(starters@).take(n as int) =~= starter_rows_spec(starters@));
    }
    out
}

/// The headline figures: replies, their share, the two reply times, the
/// bursts and their typical size.
pub open spec fn talk_figures_spec(f: TalkFacts, d: TalkDrawn) -> Seq<char> {
    "<ul class=\"figures\">"@ + figure_cells(
        seq![
            (thousands_spec(f.replies as int), "replies"@),
            (d.reply_share@, "of messages are replies"@),
            (esc_spec(d.latency_median@), "median time to reply"@),
            (esc_spec(d.latency_p90@), "90th percentile"@),
            (thousands_spec((f.sessions as i64) as int), "bursts of talk"@),
            (thousands_spec(f.session_median_messages as int), "messages in a typical burst"@),
        ],
    ) + "</ul>"@
}

/// The wait chart and its caption, naming the quickest person; nothing when
/// nobody has a reply time.
pub open spec fn waits_spec(fastest: Seq<Latency>, d: TalkDrawn) -> Seq<char> {
    if fastest.len() == 0 {
        Seq::empty()
    } else {
        "<h3>How long people wait before answering</h3>"@ + d.waits@
            + "<p class=\"caption\">Median gap between a message and their reply to it, for anyone with five replies or more. Shorter is faster; "@
            + esc_spec(fastest[0].name@) + " is quickest at "@ + esc_spec(d.quickest@) + ".</p>"@
    }
}

/// The starters chart and its caption; nothing when nobody started a burst.
pub open spec fn starters_spec(starters: Seq<Starter>, d: TalkDrawn) -> Seq<char> {
    if starters.len() == 0 {
        Seq::empty()
    } else {
        "<h3>Who breaks the silence</h3>"@ + d.starters@
            + "<p class=\"caption\">First message after a gap of half an hour or more.</p>"@
    }
}

/// The reply grid in its frame; nothing when nobody replied to anybody.
pub open spec fn grid_spec(edges: Seq<Edge>, d: TalkDrawn) -> Seq<char> {
    if edges.len() == 0 {
        Seq::empty()
    } else {
        matrix_frame_spec(d.matrix@)
    }
}

/// How many people the network leaves out, when it leaves anyone out.
pub open spec fn hidden_note_spec(hidden: usize) -> Seq<char> {
    if hidden != 0 {
        "The "@ + dec(hidden as nat) + " least-connected people are left out; the matrix above has the numbers."@
    } else {
        Seq::empty()
    }
}

/// The contact network and its caption; nothing when it has nobody in it.
pub open spec fn network_spec(has_network: bool, hidden: usize, d: TalkDrawn) -> Seq<char> {
    if !has_network {
        Seq::empty()
    } else {
        "<h3>Who is in contact with whom</h3>"@ + d.network@
            + "<p class=\"caption\">Replies and reactions pooled and drawn undirected: an edge means these two are in contact, and its weight is how often. Circle area is how much that person posted. "@
            + hidden_note_spec(hidden) + "</p>"@
    }
}

/// The whole conversation section.
pub open spec fn conversation_spec(f: TalkFacts, d: TalkDrawn) -> Seq<char> {
    conversation_open_spec(f.sessions) + talk_figures_spec(f, d) + waits_spec(f.fastest@, d)
        + starters_spec(f.starters@, d) + grid_spec(f.edges@, d) + network_spec(f.has_network, f.hidden, d)
        + orphan_note_spec(f.orphan_replies) + "</section>"@
}

fn talk_figures(f: &TalkFacts, d: &TalkDrawn) -> (out: String)
    ensures
        out@ == talk_figures_spec(*f, *d),
{
    let mut items: Vec<(String, String)> = Vec::new();
    items.push(figure(thousands(f.replies), "replies"));
    items.push(figure(d.reply_share.clone(), "of messages are replies"));
    items.push(figure(esc(d.latency_median.as_str()), "median time to reply"));
    items.push(figure(esc(d.latency_p90.as_str()), "90th percentile"));
    items.push(figure(thousands(f.sessions as i64), "bursts of talk"));
    items.push(figure(thousands(f.session_median_messages), "messages in a typical burst"));
    proof {
        assert(pair_views(items@) =~= seq![
            (thousands_spec(f.replies as int), "replies"@),
            (d.reply_share@, "of messages are replies"@),
            (esc_spec(d.latency_median@), "median time to reply"@),
            (esc_spec(d.latency_p90@), "90th percentile"@),
            (thousands_spec((f.sessions as i64) as int), "bursts of talk"@),
            (thousands_spec(f.session_median_messages as int), "messages in a typical burst"@),
        ]);
    }
    figures(&items)
}

fn waits(fastest: &Vec<Latency>, d: &TalkDrawn) -> (out: String)
    ensures
        out@ == waits_spec(fastest@, *d),
{
    if fastest.len() == 0 {
        return String::new();
    }
    let mut out = String::from_str("<h3>How long people wait before answering</h3>");
    out.append(d.waits.as_str());
    out.append(
        "<p class=\"caption\">Median gap between a message and their reply to it, for anyone with five replies or more. Shorter is faster; ",
    );
    let who = esc(fastest[0].name.as_str());
    out.append(who.as_str());
    out.append(" is quickest at ");
    let wait = esc(d.quickest.as_str());
    out.append(wait.as_str());
    out.append(".</p>");
    proof {
        assert(out@ =~= waits_spec(fastest@, *d));
    }
    out
}

fn starters_part(starters: &Vec<Starter>, d: &TalkDrawn) -> (out: String)
    ensures
        out@ == starters_spec(starters@, *d),
{
    if starters.len() == 0 {
        return String::new();
    }
    let mut out = String::from_str("<h3>Who breaks the silence</h3>");
    out.append(d.starters.as_str());
    out.append("<p class=\"caption\">First message after a gap of half an hour or more.</p>");
    proof {
        assert(out@ =~= starters_spec(starters@, *d));
    }
    out
}

fn network_part(has_network: bool, hidden: usize, d: &TalkDrawn) -> (out: String)
    ensures
        out@ == network_spec(has_network, hidden, *d),
{
    if !has_network {
        return String::new();
    }
    let mut out = String::from_str("<h3>Who is in contact with whom</h3>");
    out.append(d.network.as_str());
    out.append(
        "<p class=\"caption\">Replies and reactions pooled and drawn undirected: an edge means these two are in contact, and its weight is how often. Circle area is how much that person posted. ",
    );
    let ghost before_note = out@;
    if hidden != 0 {
        out.append("The ");
        let n = natural(hidden as u64);
        out.append(n.as_str());
        out.append(" least-connected people are left out; the matrix above has the numbers.");
    }
    proof {
        assert(out@ =~= before_note + hidden_note_spec(hidden));
    }
    out.append("</p>");
    proof {
        assert(out@ =~= network_spec(has_network, hidden, *d));
    }
    out
}

/// The conversation section: the figures, the wait and starters charts with
/// their captions, the reply grid, the contact network, and the note on
/// replies whose target is missing.
pub fn conversation(f: &TalkFacts, d: &TalkDrawn) -> (out: String)
    ensures
        out@ == conversation_spec(*f, *d),
{
    let mut out = conversation_open(f.sessions);
    let figs = talk_figures(f, d);
    out.append(figs.as_str());
    let w = waits(&f.fastest, d);
    out.append(w.as_str());
    let st = starters_part(&f.starters, d);
    out.append(st.as_str());
    let ghost before_grid = out@;
    if f.edges.len() > 0 {
        let grid = matrix_frame(d.matrix.as_str());
        out.append(grid.as_str());
    }
    proof {
        assert(out@ =~= before_grid + grid_spec(f.edges@, *d));
    }
    let net = network_part(f.has_network, f.hidden, d);
    out.append(net.as_str());
    let note = orphan_note(f.orphan_replies);
    out.append(note.as_str());
    out.append("</section>");
    proof {
        assert(out@ =~= conversation_spec(*f, *d));
    }
    out
}

} // verus!
