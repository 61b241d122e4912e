//! One row per person, ranked, with the notes around the table.

use vstd::prelude::*;

use crate::scale::{caption_spec, Quantiles};

use crate::members::overflow_class;
use crate::sections::{head, head_spec};
use crate::model::{Award, Streak};
use crate::text::{dec, esc, esc_spec, join, joined, natural, same_text, thousands, thousands_spec, views};
use crate::time::{pretty_date, pretty_date_spec};

verus! {

/// How many people get a row before the rest go behind the switch.
pub const PEOPLE_SHOWN: usize = 30;

/// One person, as the people table reads them.
#[derive(Debug, Clone, Default)]
pub struct Speaker {
    pub name: String,
    /// Earlier display names.
    pub aliases: Vec<String>,
    pub role: String,
    pub messages: i64,
    pub reactions_received: i64,
    pub first: Option<String>,
    pub last: Option<String>,
}

/// The cells of a person's row that are drawn or measured elsewhere: the
/// presence strip, the share of messages and the words per message.
#[derive(Debug, Clone, Default)]
pub struct Drawn {
    pub presence: String,
    pub share: String,
    pub words: String,
}

/// The former names, after the current one.
pub open spec fn alias_note(aliases: Seq<Seq<char>>) -> Seq<char> {
    if aliases.len() == 0 {
        Seq::empty()
    } else {
        " <span class=\"alias\">was "@ + esc_spec(joined(aliases, ", "@)) + "</span>"@
    }
}

/// A role, unless it is the ordinary one.
pub open spec fn role_note(role: Seq<char>) -> Seq<char> {
    if role.len() == 0 || role == "member"@ {
        Seq::empty()
    } else {
        " <span class=\"role\">"@ + esc_spec(role) + "</span>"@
    }
}

/// A day that may be missing, as the table prints it.
pub open spec fn seen_day(day: Option<String>) -> Seq<char> {
    esc_spec(
        pretty_date_spec(
            match day {
                Some(d) => d@,
                None => Seq::empty(),
            },
        ),
    )
}

/// One person's row, at `index` among the people who spoke.
pub open spec fn person_row_spec(p: Speaker, d: Drawn, index: int) -> Seq<char> {
    "<tr"@ + overflow_class(index, PEOPLE_SHOWN as int) + "><td class=\"rank\">"@ + dec((index + 1) as nat)
        + "</td><td class=\"name\">"@ + esc_spec(p.name@) + role_note(p.role@) + alias_note(
        views(p.aliases@),
    ) + "</td><td class=\"presence\">"@ + d.presence@ + "</td><td class=\"n\">"@ + thousands_spec(
        p.messages as int,
    ) + "</td><td class=\"n\">"@ + d.share@ + "</td><td class=\"n\">"@ + d.words@
        + "</td><td class=\"n\">"@ + thousands_spec(p.reactions_received as int) + "</td><td class=\"n\">"@
        + seen_day(p.first) + "</td><td class=\"n\">"@ + seen_day(p.last) + "</td></tr>"@
}

fn day_cell(day: &Option<String>) -> (out: String)
    ensures
        out@ == seen_day(*day),
{
    let text = match day {
        Some(d) => pretty_date(d.as_str()),
        None => pretty_date(""),
    };
    proof {
        reveal_strlit("");
        assert(""@ =~= Seq::<char>::empty());
    }
    esc(text.as_str())
}

fn name_cell(p: &Speaker) -> (out: String)
    ensures
        out@ == esc_spec(p.name@) + role_note(p.role@) + alias_note(views(p.aliases@)),
{
    let mut out = esc(p.name.as_str());
    let ghost a = out@;
    if !p.role.as_str().is_empty() && !same_text(p.role.as_str(), "member") {
        out.append(" <span class=\"role\">");
        let r = esc(p.role.as_str());
        out.append(r.as_str());
        out.append("</span>");
    }
    let ghost b = out@;
    if p.aliases.len() != 0 {
        out.append(" <span class=\"alias\">was ");
        let j = join(&p.aliases, ", ");
        let e = esc(j.as_str());
        out.append(e.as_str());
        out.append("</span>");
    }
    proof {
        assert(b =~= a + role_note(p.role@));
        assert(out@ =~= b + alias_note(views(p.aliases@)));
    }
    out
}

fn person_row(p: &Speaker, d: &Drawn, index: usize) -> (out: String)
    requires
        index < usize::MAX,
    ensures
        out@ == person_row_spec(*p, *d, index as int),
{
    let mut out = String::from_str("<tr");
    if index >= PEOPLE_SHOWN {
        out.append(" class=\"overflow\"");
    }
    out.append("><td class=\"rank\">");
    let rank = natural((index + 1) as u64);
    out.append(rank.as_str());
    out.append("</td><td class=\"name\">");
    let name = name_cell(p);
    out.append(name.as_str());
    out.append("</td><td class=\"presence\">");
    out.append(d.presence.as_str());
    out.append("</td><td class=\"n\">");
    let m = thousands(p.messages);
    out.append(m.as_str());
    out.append("</td><td class=\"n\">");
    out.append(d.share.as_str());
    out.append("</td><td class=\"n\">");
    out.append(d.words.as_str());
    out.append("</td><td class=\"n\">");
    let r = thousands(p.reactions_received);
    out.append(r.as_str());
    out.append("</td><td class=\"n\">");
    let f = day_cell(&p.first);
    out.append(f.as_str());
    out.append("</td><td class=\"n\">");
    let l = day_cell(&p.last);
    out.append(l.as_str());
    out.append("</td></tr>");
    proof {
        assert(out@ =~= person_row_spec(*p, *d, index as int));
    }
    out
}

/// The people who spoke, among the first `k` rows, by index.
pub open spec fn spoke(rows: Seq<Speaker>, k: nat) -> Seq<usize>
    decreases k,
{
    if k == 0 {
        Seq::empty()
    } else if rows[k - 1].messages != 0 {
        spoke(rows, (k - 1) as nat).push((k - 1) as usize)
    } else {
        spoke(rows, (k - 1) as nat)
    }
}

/// The rows of the people who spoke, ranked as given.
pub open spec fn people_rows(rows: Seq<Speaker>, drawn: Seq<Drawn>, at: Seq<usize>) -> Seq<char>
    decreases at.len(),
{
    if at.len() == 0 {
        Seq::empty()
    } else {
        people_rows(rows, drawn, at.drop_last()) + person_row_spec(
            rows[at.last() as int],
            drawn[at.last() as int],
            at.len() - 1,
        )
    }
}

/// The head of the people table.
pub open spec fn people_headers() -> Seq<char> {
    "<tr><th></th><th>Name</th><th>Presence</th><th class=\"n\">Messages</th><th class=\"n\">Share</th><th class=\"n\">Words/msg</th><th class=\"n\">Reactions</th><th class=\"n\">First seen</th><th class=\"n\">Last seen</th></tr>"@
}

/// The people table: everyone who sent at least one message, in the order
/// the statistics rank them; rows past the thirtieth go behind the switch.
pub open spec fn people_table_spec(rows: Seq<Speaker>, drawn: Seq<Drawn>) -> Seq<char> {
    "<table><thead>"@ + people_headers() + "</thead><tbody>"@ + people_rows(
        rows,
        drawn,
        spoke(rows, rows.len()),
    ) + "</tbody></table>"@
}

proof fn lemma_spoke_bound(rows: Seq<Speaker>, k: nat)
    ensures
        spoke(rows, k).len() <= k,
        forall|m: int| 0 <= m < spoke(rows, k).len() ==> #[trigger] spoke(rows, k)[m] < k,
    decreases k,
{
    if k > 0 {
        lemma_spoke_bound(rows, (k - 1) as nat);
    }
}

/// How many people sent at least one message.
pub fn speaking_count(rows: &Vec<Speaker>) -> (n: usize)
    ensures
        n == spoke(rows@, rows.len() as nat).len(),
{
    let mut n: usize = 0;
    let mut i: usize = 0;
    while i < rows.len()
        invariant
            i <= rows.len(),
            n == spoke(rows@, i as nat).len(),
            n <= i,
        decreases rows.len() - i,
    {
        if rows[i].messages != 0 {
            n = n + 1;
        }
        i = i + 1;
    }
    n
}

/// The people table. `drawn[i]` holds the cells drawn elsewhere for `rows[i]`.
pub fn people_table(rows: &Vec<Speaker>, drawn: &Vec<Drawn>) -> (out: String)
    requires
        drawn.len() == rows.len(),
    ensures
        out@ == people_table_spec(rows@, drawn@),
{
    let mut body = String::new();
    let mut count: usize = 0;
    let mut i: usize = 0;
    while i < rows.len()
        invariant
            drawn.len() == rows.len(),
            i <= rows.len(),
            count == spoke(rows@, i as nat).len(),
            count <= i,
            body@ == people_rows(rows@, drawn@, spoke(rows@, i as nat)),
        decreases rows.len() - i,
    {
        if rows[i].messages != 0 {
            let line = person_row(&rows[i], &drawn[i], count);
            body.append(line.as_str());
            proof {
                let at = spoke(rows@, (i + 1) as nat);
                assert(at.drop_last() =~= spoke(rows@, i as nat));
            }
            count = count + 1;
        }
        i = i + 1;
    }
    let mut out = String::from_str("<table><thead>");
    out.append(
        "<tr><th></th><th>Name</th><th>Presence</th><th class=\"n\">Messages</th><th class=\"n\">Share</th><th class=\"n\">Words/msg</th><th class=\"n\">Reactions</th><th class=\"n\">First seen</th><th class=\"n\">Last seen</th></tr>",
    );
    out.append("</thead><tbody>");
    out.append(body.as_str());
    out.append("</tbody></table>");
    out
}

/// The note under a table long enough to fold.
pub open spec fn more_people_spec(hidden: nat) -> Seq<char> {
    if hidden == 0 {
        Seq::empty()
    } else {
        "<p class=\"note\">"@ + dec(hidden) + " more "@ + (if hidden == 1 { "person"@ } else { "people"@ })
            + " sent at least one message. Use <span class=\"num\">Everyone</span> above to show them.</p>"@
    }
}

/// The note under a table long enough to fold: how many more sent a message.
pub fn more_people(speaking: usize) -> (out: String)
    ensures
        out@ == more_people_spec((if speaking > PEOPLE_SHOWN { speaking - PEOPLE_SHOWN } else { 0 }) as nat),
{
    let hidden = speaking.saturating_sub(PEOPLE_SHOWN);
    if hidden == 0 {
        return String::new();
    }
    let mut out = String::from_str("<p class=\"note\">");
    let n = natural(hidden as u64);
    out.append(n.as_str());
    out.append(" more ");
    out.append(if hidden == 1 { "person" } else { "people" });
    out.append(" sent at least one message. Use <span class=\"num\">Everyone</span> above to show them.</p>");
    out
}

/// The people in the archive who never posted, pointed at the section that lists them.
pub open spec fn silent_note_spec(silent: nat) -> Seq<char> {
    if silent == 0 {
        Seq::empty()
    } else {
        "<p class=\"note\">"@ + dec(silent) + " more "@ + (if silent == 1 {
            "person appears"@
        } else {
            "people appear"@
        })
            + " in this archive without ever posting, so they are not in the table above &#8212; see <a href=\"#members\">Members</a>.</p>"@
    }
}

/// The people in the archive who never posted, pointed at the section that lists them.
pub fn silent_note(silent: usize) -> (out: String)
    ensures
        out@ == silent_note_spec(silent as nat),
{
    if silent == 0 {
        return String::new();
    }
    let mut out = String::from_str("<p class=\"note\">");
    let n = natural(silent as u64);
    out.append(n.as_str());
    out.append(" more ");
    out.append(if silent == 1 { "person appears" } else { "people appear" });
    out.append(
        " in this archive without ever posting, so they are not in the table above &#8212; see <a href=\"#members\">Members</a>.</p>",
    );
    out
}

/// One award.
pub open spec fn award_cell(a: Award) -> Seq<char> {
    "<li><b>"@ + esc_spec(a.value@) + "</b><span>"@ + esc_spec(a.title@) + ": "@ + esc_spec(a.name@)
        + "</span></li>"@
}

/// Every award, in order.
pub open spec fn award_cells(s: Seq<Award>) -> Seq<char>
    decreases s.len(),
{
    if s.len() == 0 {
        Seq::empty()
    } else {
        award_cells(s.drop_last()) + award_cell(s.last())
    }
}

/// Who does what; nothing when nobody qualifies.
pub open spec fn awards_spec(s: Seq<Award>) -> Seq<char> {
    if s.len() == 0 {
        Seq::empty()
    } else {
        "<h3>Who does what</h3><ul class=\"figures\">"@ + award_cells(s)
            + "</ul><p class=\"caption\">Restricted to people with 40 messages or more; below that every one of these is won by somebody who posted four times, all of them at 4am.</p>"@
    }
}

/// Who does what: the per-person records, each with its winner.
pub fn awards(s: &Vec<Award>) -> (out: String)
    ensures
        out@ == awards_spec(s@),
{
    if s.len() == 0 {
        return String::new();
    }
    let mut cells = String::new();
    let mut i: usize = 0;
    while i < s.len()
        invariant
            i <= s.len(),
            cells@ == award_cells(s@.take(i as int)),
        decreases s.len() - i,
    {
        proof {
            assert(s@.take(i + 1).drop_last() =~= s@.take(i as int));
        }
        cells.append("<li><b>");
        let v = esc(s[i].value.as_str());
        cells.append(v.as_str());
        cells.append("</b><span>");
        let t = esc(s[i].title.as_str());
        cells.append(t.as_str());
        cells.append(": ");
        let n = esc(s[i].name.as_str());
        cells.append(n.as_str());
        cells.append("</span></li>");
        proof {
            assert(cells@ =~= award_cells(s@.take(i + 1)));
        }
        i = i + 1;
    }
    proof {
        assert(s@.take(s.len() as int) =~= s@);
    }
    let mut out = String::from_str("<h3>Who does what</h3><ul class=\"figures\">");
    out.append(cells.as_str());
    out.append(
        "</ul><p class=\"caption\">Restricted to people with 40 messages or more; below that every one of these is won by somebody who posted four times, all of them at 4am.</p>",
    );
    out
}

/// The longest unbroken run of days somebody posted on.
pub open spec fn streak_spec(s: Option<Streak>) -> Seq<char> {
    match s {
        None => Seq::empty(),
        Some(run) => "<p class=\"note\">Longest unbroken run of days posted on: "@ + esc_spec(run.name@)
            + ", "@ + dec(run.days as nat) + " days to "@ + esc_spec(pretty_date_spec(run.ended@))
            + ".</p>"@,
    }
}

/// The longest unbroken run of days somebody posted on.
pub fn streak_note(s: &Option<Streak>) -> (out: String)
    ensures
        out@ == streak_spec(*s),
{
    match s {
        None => String::new(),
        Some(run) => {
            let mut out = String::from_str("<p class=\"note\">Longest unbroken run of days posted on: ");
            let n = esc(run.name.as_str());
            out.append(n.as_str());
            out.append(", ");
            let d = natural(run.days as u64);
            out.append(d.as_str());
            out.append(" days to ");
            let p = pretty_date(run.ended.as_str());
            let e = esc(p.as_str());
            out.append(e.as_str());
            out.append(".</p>");
            out
        },
    }
}

/// Reactions given are a floor, and how much of one.
pub open spec fn votes_note_spec(named: i64, total: i64) -> Seq<char> {
    "<p class=\"note\">Reactions given are a floor, not a total: Telegram names at most three reactors per message and never names an anonymous one. "@
        + thousands_spec(named as int) + " of "@ + thousands_spec(total as int)
        + " reactions in this archive have a name on them.</p>"@
}

/// Reactions given are a floor, and how much of one.
pub fn votes_note(named: i64, total: i64) -> (out: String)
    ensures
        out@ == votes_note_spec(named, total),
{
    let mut out = String::from_str(
        "<p class=\"note\">Reactions given are a floor, not a total: Telegram names at most three reactors per message and never names an anonymous one. ",
    );
    let a = thousands(named);
    out.append(a.as_str());
    out.append(" of ");
    let b = thousands(total);
    out.append(b.as_str());
    out.append(" reactions in this archive have a name on them.</p>");
    out
}

/// The count beside the section's heading.
pub open spec fn people_count_spec(speakers: nat, known: nat) -> Seq<char> {
    dec(speakers) + " spoke"@ + (if known != 0 {
        " &#183; "@ + dec(known) + " on the member list"@
    } else {
        Seq::empty()
    })
}

/// The count beside the section's heading: who spoke, and how long the
/// member list is when there is one.
pub fn people_count(speakers: usize, known: usize) -> (out: String)
    ensures
        out@ == people_count_spec(speakers as nat, known as nat),
{
    let mut out = natural(speakers as u64);
    out.append(" spoke");
    if known != 0 {
        out.append(" &#183; ");
        let k = natural(known as u64);
        out.append(k.as_str());
        out.append(" on the member list");
    }
    proof {
        assert(out@ =~= people_count_spec(speakers as nat, known as nat));
    }
    out
}


/// What the people section counts, beyond the rows.
#[derive(Debug, Clone, Default)]
pub struct Folk {
    pub speakers: usize,
    pub known_members: usize,
    pub silent_members: usize,
    pub votes_named: i64,
    pub votes_total: i64,
    pub awards: Vec<Award>,
    pub streak: Option<Streak>,
}

/// The people section; nothing at all when nobody sent a message.
///
/// `top3` is the share the three loudest carry and `caption` describes the
/// shading scale, both written elsewhere.
pub open spec fn people_spec(rows: Seq<Speaker>, drawn: Seq<Drawn>, f: Folk, top3: Seq<char>, caption: Seq<char>) -> Seq<
    char,
> {
    let speaking = spoke(rows, rows.len()).len();
    if speaking == 0 {
        Seq::empty()
    } else {
        head_spec("People"@, people_count_spec(f.speakers as nat, f.known_members as nat), "people"@)
            + "<p class=\"lede\">The three loudest carry "@ + top3
            + " of everything said.</p><p class=\"caption\">Presence runs on the same time axis as the ribbon at the top of the page, and its shading is on one scale shared by every row. "@
            + esc_spec(caption) + "</p>"@ + people_table_spec(rows, drawn) + more_people_spec(
            (if speaking > PEOPLE_SHOWN { speaking - PEOPLE_SHOWN } else { 0 }) as nat,
        ) + silent_note_spec(f.silent_members as nat) + streak_spec(f.streak) + awards_spec(f.awards@)
            + votes_note_spec(f.votes_named, f.votes_total) + "</section>"@
    }
}

/// The people section: one row per person who spoke, ranked, with who else
/// is here, the longest run, who does what, and what reactions can tell.
pub fn people(rows: &Vec<Speaker>, drawn: &Vec<Drawn>, f: &Folk, top3: &str, scale: &Quantiles) -> (out: String)
    requires
        drawn.len() == rows.len(),
    ensures
        out@ == people_spec(rows@, drawn@, *f, top3@, caption_spec(scale.edges@, scale.top, "messages in a day"@)),
{
    let caption_text = scale.caption("messages in a day");
    let caption = caption_text.as_str();
    let speaking = speaking_count(rows);
    if speaking == 0 {
        return String::new();
    }
    let count = people_count(f.speakers, f.known_members);
    let mut out = head("People", count.as_str(), "people");
    out.append("<p class=\"lede\">The three loudest carry ");
    out.append(top3);
    out.append(
        " of everything said.</p><p class=\"caption\">Presence runs on the same time axis as the ribbon at the top of the page, and its shading is on one scale shared by every row. ",
    );
    let c = esc(caption);
    out.append(c.as_str());
    out.append("</p>");
    let t = people_table(rows, drawn);
    out.append(t.as_str());
    let m = more_people(speaking);
    out.append(m.as_str());
    let sn = silent_note(f.silent_members);
    out.append(sn.as_str());
    let st = streak_note(&f.streak);
    out.append(st.as_str());
    let aw = awards(&f.awards);
    out.append(aw.as_str());
    let v = votes_note(f.votes_named, f.votes_total);
    out.append(v.as_str());
    out.append("</section>");
    proof {
        reveal_strlit("People");
        reveal_strlit("people");
    }
    out
}

} // verus!
