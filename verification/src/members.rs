//! The member list, rendered — not just counted.
//!
//! The member list is the one file beside an export that says who is *in* the
//! group as opposed to who happened to talk in it. Three populations are kept
//! apart: on the list and in the history; on the list and never seen; in the
//! history and not on the list. The last is why a roster of 43 against 45
//! speakers is not a rounding difference.

use vstd::prelude::*;

use crate::rank::{
    char_views, law_rank_is_ordered, law_rank_lists_every_row_once, law_rank_misses_no_row, rank, ranked,
    text_lt,
};
use crate::sections::{figure_cells, figures, head, head_spec, lowercase, pair_views, to_lowercase};
use crate::text::{chars_of, dec, esc, esc_spec, natural, same_text, thousands, thousands_spec};
use crate::time::{pretty_date, pretty_date_spec};

verus! {

/// One row of the people table, as the member list sees it.
#[derive(Debug, Clone, Default)]
pub struct Member {
    pub name: String,
    /// The `@handle`, without the `@`; empty when the account set none.
    pub username: String,
    pub role: String,
    pub bot: bool,
    /// On the member list, whether or not they ever posted.
    pub listed: bool,
    pub messages: i64,
    pub first: Option<String>,
    pub last: Option<String>,
    pub joined: Option<String>,
}

/// What the member list says about itself.
#[derive(Debug, Clone, Default)]
pub struct Roster {
    pub known_members: usize,
    pub members_who_spoke: usize,
    pub speakers: usize,
    /// `Some(false)`: the exporter knows it missed some.
    pub roster_complete: Option<bool>,
    /// `Some(true)`: the exporter stopped at a limit.
    pub roster_capped: Option<bool>,
}

/// Rows before the rest go behind the switch. Higher than the people
/// table's, because these rows carry no presence strip.
pub const SHOWN: usize = 120;

/// A count as the page prints it.
pub open spec fn count_text(n: usize) -> Seq<char> {
    thousands_spec((n as i64) as int)
}

fn count_string(n: usize) -> (out: String)
    ensures
        out@ == count_text(n),
{
    thousands(n as i64)
}

/// The handle cell: stated rather than left blank when there is none.
pub open spec fn handle_cell(username: Seq<char>) -> Seq<char> {
    if username.len() == 0 {
        "<span class=\"muted\">no handle</span>"@
    } else {
        "<span class=\"handle\">@"@ + esc_spec(username) + "</span>"@
    }
}

/// The marks after a name: a bot pill, and any role but the ordinary one.
pub open spec fn flag_marks(bot: bool, role: Seq<char>) -> Seq<char> {
    (if bot { "<span class=\"tagpill\">bot</span>"@ } else { Seq::empty() }) + (if role != "member"@
        && role.len() != 0 {
        "<span class=\"role\">"@ + esc_spec(role) + "</span>"@
    } else {
        Seq::empty()
    })
}

/// "Never posted" is a word rather than a zero.
pub open spec fn said_cell(messages: i64) -> Seq<char> {
    if messages == 0 {
        "<span class=\"muted\">never posted</span>"@
    } else {
        thousands_spec(messages as int)
    }
}

/// First and last seen, only when both are known.
pub open spec fn seen_cell(first: Option<String>, last: Option<String>) -> Seq<char> {
    match (first, last) {
        (Some(f), Some(l)) => esc_spec(pretty_date_spec(f@)) + " &ndash; "@ + esc_spec(
            pretty_date_spec(l@),
        ),
        _ => Seq::empty(),
    }
}

/// The join date, when the list carries one.
pub open spec fn joined_cell(joined: Option<String>) -> Seq<char> {
    match joined {
        Some(w) => esc_spec(pretty_date_spec(w@)),
        None => Seq::empty(),
    }
}

/// Rows past the fold are marked so the switch can show them.
pub open spec fn overflow_class(index: int, shown: int) -> Seq<char> {
    if index >= shown {
        " class=\"overflow\""@
    } else {
        Seq::empty()
    }
}

/// One member's row, at `index` in the ranked list.
pub open spec fn member_row_spec(row: Member, index: int) -> Seq<char> {
    "<tr"@ + overflow_class(index, SHOWN as int) + "><td class=\"name\">"@ + esc_spec(row.name@)
        + flag_marks(row.bot, row.role@) + "</td><td>"@ + handle_cell(row.username@)
        + "</td><td class=\"n\">"@ + said_cell(row.messages) + "</td><td class=\"n\">"@ + seen_cell(
        row.first,
        row.last,
    ) + "</td><td class=\"n\">"@ + joined_cell(row.joined) + "</td></tr>"@
}

fn handle_string(username: &String) -> (out: String)
    ensures
        out@ == handle_cell(username@),
{
    if username.as_str().is_empty() {
        String::from_str("<span class=\"muted\">no handle</span>")
    } else {
        let mut out = String::from_str("<span class=\"handle\">@");
        let e = esc(username.as_str());
        out.append(e.as_str());
        out.append("</span>");
        out
    }
}

fn flag_string(bot: bool, role: &String) -> (out: String)
    ensures
        out@ == flag_marks(bot, role@),
{
    let mut out = String::new();
    if bot {
        out.append("<span class=\"tagpill\">bot</span>");
    }
    let ghost mid = out@;
    if !same_text(role.as_str(), "member") && !role.as_str().is_empty() {
        out.append("<span class=\"role\">");
        let e = esc(role.as_str());
        out.append(e.as_str());
        out.append("</span>");
    }
    proof {
        assert(out@ =~= flag_marks(bot, role@));
    }
    out
}

fn seen_string(first: &Option<String>, last: &Option<String>) -> (out: String)
    ensures
        out@ == seen_cell(*first, *last),
{
    match (first, last) {
        (Some(f), Some(l)) => {
            let a = pretty_date(f.as_str());
            let mut out = esc(a.as_str());
            out.append(" &ndash; ");
            let b = pretty_date(l.as_str());
            let e = esc(b.as_str());
            out.append(e.as_str());
            out
        },
        _ => String::new(),
    }
}

fn member_row(row: &Member, index: usize) -> (out: String)
    ensures
        out@ == member_row_spec(*row, index as int),
{
    let mut out = String::from_str("<tr");
    if index >= SHOWN {
        out.append(" class=\"overflow\"");
    }
    out.append("><td class=\"name\">");
    let name = esc(row.name.as_str());
    out.append(name.as_str());
    let flags = flag_string(row.bot, &row.role);
    out.append(flags.as_str());
    out.append("</td><td>");
    let handle = handle_string(&row.username);
    out.append(handle.as_str());
    out.append("</td><td class=\"n\">");
    if row.messages == 0 {
        out.append("<span class=\"muted\">never posted</span>");
    } else {
        let said = thousands(row.messages);
        out.append(said.as_str());
    }
    out.append("</td><td class=\"n\">");
    let seen = seen_string(&row.first, &row.last);
    out.append(seen.as_str());
    out.append("</td><td class=\"n\">");
    match &row.joined {
        Some(w) => {
            let d = pretty_date(w.as_str());
            let e = esc(d.as_str());
            out.append(e.as_str());
        },
        None => {},
    }
    out.append("</td></tr>");
    proof {
        assert(out@ =~= member_row_spec(*row, index as int));
    }
    out
}

/// The indices of the first `k` rows that are on the member list, in order.
pub open spec fn listed_from(rows: Seq<Member>, k: nat) -> Seq<usize>
    decreases k,
{
    if k == 0 {
        Seq::empty()
    } else if rows[k - 1].listed {
        listed_from(rows, (k - 1) as nat).push((k - 1) as usize)
    } else {
        listed_from(rows, (k - 1) as nat)
    }
}

/// The message counts of the given rows.
pub open spec fn key_counts(rows: Seq<Member>, at: Seq<usize>) -> Seq<i64> {
    at.map_values(|i: usize| rows[i as int].messages)
}

/// The lower-cased names of the given rows.
pub open spec fn key_names(rows: Seq<Member>, at: Seq<usize>) -> Seq<Seq<char>> {
    at.map_values(|i: usize| lowercase(rows[i as int].name@))
}

/// The listed rows, loudest first, then by lower-cased name.
pub open spec fn listed_order_spec(rows: Seq<Member>) -> Seq<usize> {
    let at = listed_from(rows, rows.len());
    ranked(key_counts(rows, at), key_names(rows, at), at.len()).map_values(|j: usize| at[j as int])
}

proof fn lemma_listed_from_bound(rows: Seq<Member>, k: nat)
    ensures
        listed_from(rows, k).len() <= k,
        forall|m: int| 0 <= m < listed_from(rows, k).len() ==> #[trigger] listed_from(rows, k)[m] < k,
    decreases k,
{
    if k > 0 {
        lemma_listed_from_bound(rows, (k - 1) as nat);
    }
}

/// The rows on the member list, loudest first, then by name, so the order
/// matches every other table on the page rather than the order the list
/// happened to be written in. Equal rows keep their order.
pub fn listed_order(rows: &Vec<Member>) -> (out: Vec<usize>)
    ensures
        out@ == listed_order_spec(rows@),
        forall|m: int| 0 <= m < out.len() ==> #[trigger] out@[m] < rows.len(),
{
    let mut at: Vec<usize> = Vec::new();
    let mut counts: Vec<i64> = Vec::new();
    let mut names: Vec<Vec<char>> = Vec::new();
    let mut i: usize = 0;
    while i < rows.len()
        invariant
            i <= rows.len(),
            at@.len() <= i,
            at@ == listed_from(rows@, i as nat),
            counts@ == key_counts(rows@, at@),
            char_views(names@) == key_names(rows@, at@),
            counts.len() == at.len(),
            names.len() == at.len(),
        decreases rows.len() - i,
    {
        if rows[i].listed {
            at.push(i);
            counts.push(rows[i].messages);
            let low = to_lowercase(rows[i].name.as_str());
            let ghost before = names@;
            let cs = chars_of(low.as_str());
            names.push(cs);
            proof {
                assert(counts@ =~= key_counts(rows@, at@));
                assert forall|q: int| 0 <= q < names.len() implies #[trigger] char_views(names@)[q]
                    == key_names(rows@, at@)[q] by {
                    if q < before.len() {
                        assert(names@[q] == before[q]);
                        assert(char_views(before)[q] == key_names(rows@, at@.drop_last())[q]);
                        assert(at@.drop_last()[q] == at@[q]);
                    }
                }
                assert(char_views(names@) =~= key_names(rows@, at@));
            }
        }
        i = i + 1;
    }
    let order = rank(&counts, &names);
    proof {
        law_rank_lists_every_row_once(counts@, char_views(names@), counts.len() as nat);
        lemma_listed_from_bound(rows@, rows.len() as nat);
    }
    let ghost whole = order@.map_values(|j: usize| at@[j as int]);
    let mut out: Vec<usize> = Vec::new();
    let mut m: usize = 0;
    while m < order.len()
        invariant
            at@ == listed_from(rows@, rows.len() as nat),
            forall|q: int| 0 <= q < at.len() ==> #[trigger] at@[q] < rows.len(),
            order.len() == at.len(),
            forall|q: int| 0 <= q < order.len() ==> #[trigger] order@[q] < at.len(),
            whole == order@.map_values(|j: usize| at@[j as int]),
            m <= order.len(),
            out@ == whole.take(m as int),
            forall|q: int| 0 <= q < out.len() ==> #[trigger] out@[q] < rows.len(),
        decreases order.len() - m,
    {
        let j = order[m];
        out.push(at[j]);
        proof {
            assert(out@ =~= whole.take(m + 1));
        }
        m = m + 1;
    }
    proof {
        assert(whole.take(order.len() as int) =~= whole);
    }
    out
}


/// `a - b`, or nothing when `b` is the larger.
pub open spec fn sat_sub(a: usize, b: usize) -> usize {
    if a >= b { (a - b) as usize } else { 0 }
}

/// The sentence at the top, true of every shape the list can take.
pub open spec fn lede_spec(r: Roster) -> Seq<char> {
    let quiet = sat_sub(r.known_members, r.members_who_spoke);
    if quiet == 0 {
        "Everybody on the member list posted at least once."@
    } else {
        count_text(quiet) + " of the "@ + count_text(r.known_members)
            + " people on the member list never posted, so this is the only table on the page they appear in."@
    }
}

/// The sentence at the top of the member list.
pub fn lede(r: &Roster) -> (out: String)
    ensures
        out@ == lede_spec(*r),
{
    let quiet = r.known_members.saturating_sub(r.members_who_spoke);
    if quiet == 0 {
        return String::from_str("Everybody on the member list posted at least once.");
    }
    let mut out = count_string(quiet);
    out.append(" of the ");
    let known = count_string(r.known_members);
    out.append(known.as_str());
    out.append(
        " people on the member list never posted, so this is the only table on the page they appear in.",
    );
    out
}

/// What the member list is not, when it is not a complete census.
pub open spec fn caveats_spec(r: Roster, unlisted: usize) -> Seq<char> {
    (if r.roster_complete == Some(false) {
        "<p class=\"note\">The export says this member list is incomplete, so the count of people who never posted is a floor rather than a total.</p>"@
    } else {
        Seq::empty()
    }) + (if r.roster_capped == Some(true) {
        "<p class=\"note\">The export says it stopped collecting members before it ran out of them, so the list is the first however-many rather than all of them.</p>"@
    } else {
        Seq::empty()
    }) + (if unlisted != 0 {
        "<p class=\"note\">"@ + count_text(unlisted) + " "@ + (if unlisted == 1 {
            "person"@
        } else {
            "people"@
        }) + " in this archive "@ + (if unlisted == 1 {
            "is not"@
        } else {
            "are not"@
        })
            + " on the member list at all &#8212; people who left before the export was taken, or whom a short list missed. Everything they said is still counted everywhere else on this page.</p>"@
    } else {
        Seq::empty()
    })
}

/// What the member list is not: two flags kept apart, because "incomplete"
/// and "stopped at a limit" call for different amounts of doubt.
pub fn caveats(r: &Roster, unlisted: usize) -> (out: String)
    ensures
        out@ == caveats_spec(*r, unlisted),
{
    let mut out = String::new();
    if r.roster_complete == Some(false) {
        out.append(
            "<p class=\"note\">The export says this member list is incomplete, so the count of people who never posted is a floor rather than a total.</p>",
        );
    }
    if r.roster_capped == Some(true) {
        out.append(
            "<p class=\"note\">The export says it stopped collecting members before it ran out of them, so the list is the first however-many rather than all of them.</p>",
        );
    }
    if unlisted != 0 {
        out.append("<p class=\"note\">");
        let n = count_string(unlisted);
        out.append(n.as_str());
        out.append(" ");
        out.append(if unlisted == 1 { "person" } else { "people" });
        out.append(" in this archive ");
        out.append(if unlisted == 1 { "is not" } else { "are not" });
        out.append(
            " on the member list at all &#8212; people who left before the export was taken, or whom a short list missed. Everything they said is still counted everywhere else on this page.</p>",
        );
    }
    proof {
        assert(out@ =~= caveats_spec(*r, unlisted));
    }
    out
}

/// How many of the given members have no handle.
pub open spec fn handleless(s: Seq<Member>) -> nat
    decreases s.len(),
{
    if s.len() == 0 {
        0
    } else {
        handleless(s.drop_last()) + if s.last().username@.len() == 0 { 1nat } else { 0nat }
    }
}

/// How many of the given members are bots.
pub open spec fn bot_count(s: Seq<Member>) -> nat
    decreases s.len(),
{
    if s.len() == 0 {
        0
    } else {
        bot_count(s.drop_last()) + if s.last().bot { 1nat } else { 0nat }
    }
}

/// The note on handles, given how many of how many have none.
pub open spec fn handles_note_spec(without: nat, listed: nat) -> Seq<char> {
    if without == 0 {
        Seq::empty()
    } else {
        "<p class=\"caption\">"@ + count_text(without as usize) + " of the "@ + count_text(
            listed as usize,
        )
            + " have no <span class=\"num\">@handle</span>. A display name is whatever its owner last set it to; a handle is the only part of a person here that stays put, so a row without one can be recognised today and not next month.</p>"@
    }
}

/// The note on handles, which decide whether a member can be looked up at all.
pub fn handles_note(without: usize, listed: usize) -> (out: String)
    ensures
        out@ == handles_note_spec(without as nat, listed as nat),
{
    if without == 0 {
        return String::new();
    }
    let mut out = String::from_str("<p class=\"caption\">");
    let a = count_string(without);
    out.append(a.as_str());
    out.append(" of the ");
    let b = count_string(listed);
    out.append(b.as_str());
    out.append(
        " have no <span class=\"num\">@handle</span>. A display name is whatever its owner last set it to; a handle is the only part of a person here that stays put, so a row without one can be recognised today and not next month.</p>",
    );
    out
}

/// The rows of the given members, each at its place in the list.
pub open spec fn member_rows(s: Seq<Member>) -> Seq<char>
    decreases s.len(),
{
    if s.len() == 0 {
        Seq::empty()
    } else {
        member_rows(s.drop_last()) + member_row_spec(s.last(), s.len() - 1)
    }
}

/// The headline figures of the member list.
pub open spec fn member_counts(r: Roster, bots: nat) -> Seq<(Seq<char>, Seq<char>)> {
    let quiet = sat_sub(r.known_members, r.members_who_spoke);
    let unlisted = sat_sub(r.speakers, r.members_who_spoke);
    seq![
        (count_text(r.known_members), "on the member list"@),
        (count_text(r.members_who_spoke), "of them posted"@),
        (count_text(quiet), "never posted"@),
    ] + (if unlisted != 0 {
        seq![(count_text(unlisted), "posted but are not listed"@)]
    } else {
        Seq::empty()
    }) + (if bots != 0 {
        seq![(count_text(bots as usize), "are bots"@)]
    } else {
        Seq::empty()
    })
}

/// The note under a list long enough to fold.
pub open spec fn more_spec(listed: nat) -> Seq<char> {
    if listed > SHOWN {
        "<p class=\"note\">"@ + dec((listed - SHOWN) as nat) + " more "@ + (if listed - SHOWN == 1 {
            "person is"@
        } else {
            "people are"@
        }) + " on the list. Use <span class=\"num\">Everyone</span> above to show them.</p>"@
    } else {
        Seq::empty()
    }
}

/// The table header of the member list.
pub open spec fn member_headers() -> Seq<char> {
    "<tr><th>Name</th><th>Handle</th><th class=\"n\">Messages</th><th class=\"n\">Seen</th><th class=\"n\">Joined</th></tr>"@
}

/// The section, given the listed members in ranked order.
pub open spec fn roster_section(r: Roster, listed: Seq<Member>) -> Seq<char> {
    let unlisted = sat_sub(r.speakers, r.members_who_spoke);
    head_spec("Members"@, count_text(r.known_members) + " listed"@, "members"@)
        + "<p class=\"lede\">"@ + lede_spec(r) + "</p>"@ + "<ul class=\"figures\">"@
        + figure_cells(member_counts(r, bot_count(listed))) + "</ul>"@ + caveats_spec(r, unlisted)
        + "<table><thead>"@ + member_headers() + "</thead><tbody>"@ + member_rows(listed)
        + "</tbody></table>"@ + more_spec(listed.len()) + handles_note_spec(
        handleless(listed),
        listed.len(),
    ) + "</section>"@
}

/// The members who never posted, in the order the statistics list them.
pub open spec fn never_posted(rows: Seq<Member>) -> Seq<Member>
    decreases rows.len(),
{
    if rows.len() == 0 {
        Seq::empty()
    } else if rows.last().messages == 0 {
        never_posted(rows.drop_last()).push(rows.last())
    } else {
        never_posted(rows.drop_last())
    }
}

/// One name in the list of people who never posted.
pub open spec fn name_item(name: Seq<char>) -> Seq<char> {
    "<li>"@ + (if name.len() == 0 {
        "<span class=\"muted\">unnamed account</span>"@
    } else {
        esc_spec(name)
    }) + "</li>"@
}

/// The names of the given members as list items.
pub open spec fn name_items(s: Seq<Member>) -> Seq<char>
    decreases s.len(),
{
    if s.len() == 0 {
        Seq::empty()
    } else {
        name_items(s.drop_last()) + name_item(s.last().name@)
    }
}

/// What to say when the export carried no member list at all.
pub open spec fn absent_spec(rows: Seq<Member>) -> Seq<char> {
    let quiet = never_posted(rows);
    let n = quiet.len();
    if n == 0 {
        Seq::empty()
    } else {
        head_spec("Members"@, count_text(n as usize) + " never posted"@, "members"@)
            + "<p class=\"lede\">This export carries no member list, so there is no roll to compare the conversation against.</p><p class=\"note\">"@
            + count_text(n as usize) + " "@ + (if n == 1 { "person"@ } else { "people"@ })
            + " below "@ + (if n == 1 { "appears"@ } else { "appear"@ })
            + " in this archive without ever posting: they reacted to something, or a join or a rename named them. That is a floor and not a count of lurkers &#8212; somebody who read every message and never touched a reaction leaves no trace at all, and Telegram names at most three reactors per message.</p><ul class=\"namelist\">"@
            + name_items(quiet)
            + "</ul><p class=\"caption\">Drop a <span class=\"num\">participants.json</span> beside the export to turn this into a real member list, with handles, roles and everybody who never spoke &#8212; including the ones who never even reacted, who leave no trace here at all.</p></section>"@
    }
}

/// The members section: the list rendered when there is one, and the people
/// who never posted named when there is not.
pub open spec fn members_spec(r: Roster, rows: Seq<Member>) -> Seq<char> {
    if r.known_members == 0 {
        absent_spec(rows)
    } else {
        roster_section(r, listed_order_spec(rows).map_values(|i: usize| rows[i as int]))
    }
}


/// What to say when the export carried no member list at all.
///
/// Everybody the history mentions who never posted a word, named rather than
/// counted: "25 people" is a fact you cannot act on, where a list is one you
/// can go and check.
pub fn absent(rows: &Vec<Member>) -> (out: String)
    ensures
        out@ == absent_spec(rows@),
{
    let mut items = String::new();
    let mut n: usize = 0;
    let ghost mut quiet: Seq<Member> = Seq::empty();
    let mut i: usize = 0;
    while i < rows.len()
        invariant
            i <= rows.len(),
            quiet == never_posted(rows@.take(i as int)),
            n == quiet.len(),
            n <= i,
            items@ == name_items(quiet),
        decreases rows.len() - i,
    {
        proof {
            assert(rows@.take(i + 1).drop_last() =~= rows@.take(i as int));
        }
        if rows[i].messages == 0 {
            items.append("<li>");
            if rows[i].name.as_str().is_empty() {
                items.append("<span class=\"muted\">unnamed account</span>");
            } else {
                let e = esc(rows[i].name.as_str());
                items.append(e.as_str());
            }
            items.append("</li>");
            proof {
                quiet = quiet.push(rows@[i as int]);
                assert(quiet.drop_last() =~= never_posted(rows@.take(i as int)));
                assert(items@ =~= name_items(quiet));
            }
            n = n + 1;
        }
        i = i + 1;
    }
    proof {
        assert(rows@.take(rows.len() as int) =~= rows@);
    }
    if n == 0 {
        return String::new();
    }
    let count = count_string(n);
    let mut label = count_string(n);
    label.append(" never posted");
    let mut out = head("Members", label.as_str(), "members");
    out.append(
        "<p class=\"lede\">This export carries no member list, so there is no roll to compare the conversation against.</p><p class=\"note\">",
    );
    out.append(count.as_str());
    out.append(" ");
    out.append(if n == 1 { "person" } else { "people" });
    out.append(" below ");
    out.append(if n == 1 { "appears" } else { "appear" });
    out.append(
        " in this archive without ever posting: they reacted to something, or a join or a rename named them. That is a floor and not a count of lurkers &#8212; somebody who read every message and never touched a reaction leaves no trace at all, and Telegram names at most three reactors per message.</p><ul class=\"namelist\">",
    );
    out.append(items.as_str());
    out.append(
        "</ul><p class=\"caption\">Drop a <span class=\"num\">participants.json</span> beside the export to turn this into a real member list, with handles, roles and everybody who never spoke &#8212; including the ones who never even reacted, who leave no trace here at all.</p></section>",
    );
    proof {
        reveal_strlit("Members");
        reveal_strlit("members");
        assert(out@ =~= absent_spec(rows@));
    }
    out
}

/// The rows of the listed members in ranked order, and how many of them are
/// bots and how many have no handle.
fn roster_rows(rows: &Vec<Member>, order: &Vec<usize>) -> (out: (String, usize, usize))
    requires
        forall|q: int| 0 <= q < order.len() ==> #[trigger] order@[q] < rows.len(),
    ensures
        out.0@ == member_rows(order@.map_values(|i: usize| rows@[i as int])),
        out.1 == bot_count(order@.map_values(|i: usize| rows@[i as int])),
        out.2 == handleless(order@.map_values(|i: usize| rows@[i as int])),
{
    let ghost listed = order@.map_values(|i: usize| rows@[i as int]);
    let mut body = String::new();
    let mut bots: usize = 0;
    let mut without: usize = 0;
    let mut m: usize = 0;
    while m < order.len()
        invariant
            forall|q: int| 0 <= q < order.len() ==> #[trigger] order@[q] < rows.len(),
            listed == order@.map_values(|i: usize| rows@[i as int]),
            m <= order.len(),
            body@ == member_rows(listed.take(m as int)),
            bots == bot_count(listed.take(m as int)),
            without == handleless(listed.take(m as int)),
            bots <= m,
            without <= m,
        decreases order.len() - m,
    {
        let row = &rows[order[m]];
        proof {
            assert(listed.take(m + 1).drop_last() =~= listed.take(m as int));
            assert(listed.take(m + 1).last() == *row);
        }
        let line = member_row(row, m);
        body.append(line.as_str());
        if row.bot {
            bots = bots + 1;
        }
        if row.username.as_str().is_empty() {
            without = without + 1;
        }
        m = m + 1;
    }
    proof {
        assert(listed.take(order.len() as int) =~= listed);
    }
    (body, bots, without)
}

/// The note under a list long enough to fold.
fn more_note(total: usize) -> (out: String)
    ensures
        out@ == more_spec(total as nat),
{
    if total <= SHOWN {
        return String::new();
    }
    let mut out = String::from_str("<p class=\"note\">");
    let extra = natural((total - SHOWN) as u64);
    out.append(extra.as_str());
    out.append(" more ");
    out.append(if total - SHOWN == 1 { "person is" } else { "people are" });
    out.append(" on the list. Use <span class=\"num\">Everyone</span> above to show them.</p>");
    out
}

/// The headline figures of the member list.
fn roster_counts(r: &Roster, bots: usize) -> (out: Vec<(String, String)>)
    ensures
        pair_views(out@) == member_counts(*r, bots as nat),
{
    let quiet = r.known_members.saturating_sub(r.members_who_spoke);
    let unlisted = r.speakers.saturating_sub(r.members_who_spoke);
    let mut counts: Vec<(String, String)> = Vec::new();
    counts.push((count_string(r.known_members), String::from_str("on the member list")));
    counts.push((count_string(r.members_who_spoke), String::from_str("of them posted")));
    counts.push((count_string(quiet), String::from_str("never posted")));
    if unlisted != 0 {
        counts.push((count_string(unlisted), String::from_str("posted but are not listed")));
    }
    if bots != 0 {
        counts.push((count_string(bots), String::from_str("are bots")));
    }
    proof {
        assert(pair_views(counts@) =~= member_counts(*r, bots as nat));
    }
    counts
}

/// The members section.
///
/// With a member list: every listed member, loudest first, with the three
/// populations (posted, never posted, posted but unlisted) kept apart. Without
/// one: the people who never posted, named.
pub fn members(r: &Roster, rows: &Vec<Member>) -> (out: String)
    ensures
        out@ == members_spec(*r, rows@),
{
    if r.known_members == 0 {
        return absent(rows);
    }
    let order = listed_order(rows);
    let ghost listed = order@.map_values(|i: usize| rows@[i as int]);
    let (body, bots, without) = roster_rows(rows, &order);
    let unlisted = r.speakers.saturating_sub(r.members_who_spoke);
    let counts = roster_counts(r, bots);
    let mut label = count_string(r.known_members);
    label.append(" listed");
    let mut out = head("Members", label.as_str(), "members");
    out.append("<p class=\"lede\">");
    let l = lede(r);
    out.append(l.as_str());
    out.append("</p>");
    let f = figures(&counts);
    out.append(f.as_str());
    let c = caveats(r, unlisted);
    out.append(c.as_str());
    let ghost top = out@;
    out.append("<table><thead>");
    out.append(
        "<tr><th>Name</th><th>Handle</th><th class=\"n\">Messages</th><th class=\"n\">Seen</th><th class=\"n\">Joined</th></tr>",
    );
    out.append("</thead><tbody>");
    out.append(body.as_str());
    out.append("</tbody></table>");
    let more = more_note(order.len());
    out.append(more.as_str());
    let h = handles_note(without, order.len());
    out.append(h.as_str());
    out.append("</section>");
    proof {
        reveal_strlit("Members");
        reveal_strlit("members");
        assert(listed.len() == order.len());
        assert(top =~= head_spec("Members"@, count_text(r.known_members) + " listed"@, "members"@)
            + "<p class=\"lede\">"@ + lede_spec(*r) + "</p>"@ + "<ul class=\"figures\">"@
            + figure_cells(member_counts(*r, bot_count(listed))) + "</ul>"@ + caveats_spec(
            *r,
            unlisted,
        ));
        assert(out@ =~= roster_section(*r, listed));
    }
    out
}


proof fn lemma_listed_from(rows: Seq<Member>, k: nat)
    requires
        k <= rows.len(),
        k <= usize::MAX,
    ensures
        listed_from(rows, k).len() <= k,
        forall|m: int|
            0 <= m < listed_from(rows, k).len() ==> #[trigger] listed_from(rows, k)[m] < k
                && rows[listed_from(rows, k)[m] as int].listed,
        forall|a: int, b: int|
            0 <= a < b < listed_from(rows, k).len() ==> listed_from(rows, k)[a] < listed_from(rows, k)[b],
        forall|i: int| 0 <= i < k && rows[i].listed ==> #[trigger] listed_from(rows, k).contains(i as usize),
    decreases k,
{
    if k > 0 {
        lemma_listed_from(rows, (k - 1) as nat);
        let prev = listed_from(rows, (k - 1) as nat);
        let cur = listed_from(rows, k);
        if rows[k - 1].listed {
            assert(cur == prev.push((k - 1) as usize));
            assert(cur[prev.len() as int] == (k - 1) as usize);
            assert forall|i: int| 0 <= i < k && rows[i].listed implies #[trigger] cur.contains(i as usize) by {
                if i < k - 1 {
                    assert(prev.contains(i as usize));
                    let q = choose|q: int| 0 <= q < prev.len() && prev[q] == i as usize;
                    assert(cur[q] == i as usize);
                }
            }
        } else {
            assert(cur == prev);
            assert forall|i: int| 0 <= i < k && rows[i].listed implies #[trigger] cur.contains(i as usize) by {
                assert(i < k - 1);
                assert(prev.contains(i as usize));
            }
        }
    }
}

/// Every member on the list has exactly one row, and nobody off the list has
/// one: the member table is the one table whose job is to be complete.
pub proof fn law_member_list_is_complete(rows: Seq<Member>)
    requires
        rows.len() <= usize::MAX,
    ensures
        forall|m: int|
            0 <= m < listed_order_spec(rows).len() ==> #[trigger] listed_order_spec(rows)[m] < rows.len()
                && rows[listed_order_spec(rows)[m] as int].listed,
        forall|i: int| 0 <= i < rows.len() && rows[i].listed ==> #[trigger] listed_order_spec(rows).contains(i as usize),
        forall|a: int, b: int|
            0 <= a < b < listed_order_spec(rows).len() ==> listed_order_spec(rows)[a] != listed_order_spec(rows)[b],
{
    let at = listed_from(rows, rows.len());
    lemma_listed_from(rows, rows.len());
    let n = key_counts(rows, at);
    let names = key_names(rows, at);
    let r = ranked(n, names, at.len());
    law_rank_lists_every_row_once(n, names, at.len());
    law_rank_misses_no_row(n, names, at.len());
    let order = listed_order_spec(rows);
    assert(order == r.map_values(|j: usize| at[j as int]));
    assert forall|i: int| 0 <= i < rows.len() && rows[i].listed implies #[trigger] order.contains(i as usize) by {
        assert(listed_from(rows, rows.len()).contains(i as usize));
        let p = choose|p: int| 0 <= p < at.len() && at[p] == i as usize;
        assert(0 <= p < at.len());
        assert(ranked(n, names, at.len()).contains(p as usize));
        let q = choose|q: int| 0 <= q < r.len() && r[q] == p as usize;
        assert(order[q] == at[r[q] as int]);
        assert(order[q] == i as usize);
    }
    assert forall|a: int, b: int| 0 <= a < b < order.len() implies order[a] != order[b] by {
        assert(r[a] != r[b]);
        if r[a] < r[b] {
            assert(at[r[a] as int] < at[r[b] as int]);
        } else {
            assert(at[r[b] as int] < at[r[a] as int]);
        }
    }
}

/// `x` may stand before `y`: more messages, or as many and a name that does
/// not come later, compared without regard to case.
pub open spec fn may_precede(x: Member, y: Member) -> bool {
    x.messages > y.messages || (x.messages == y.messages && !text_lt(lowercase(y.name@), lowercase(x.name@)))
}

/// The member table runs loudest first, and among equals by name, compared
/// without regard to case.
pub proof fn law_member_list_is_ranked(rows: Seq<Member>)
    requires
        rows.len() <= usize::MAX,
    ensures
        forall|a: int, b: int|
            #![trigger listed_order_spec(rows)[a], listed_order_spec(rows)[b]]
            0 <= a < b < listed_order_spec(rows).len() ==> may_precede(
                rows[listed_order_spec(rows)[a] as int],
                rows[listed_order_spec(rows)[b] as int],
            ),
{
    let at = listed_from(rows, rows.len());
    lemma_listed_from(rows, rows.len());
    let n = key_counts(rows, at);
    let names = key_names(rows, at);
    let r = ranked(n, names, at.len());
    law_rank_lists_every_row_once(n, names, at.len());
    law_rank_is_ordered(n, names, at.len());
    let order = listed_order_spec(rows);
    assert forall|a: int, b: int| 0 <= a < b < order.len() implies may_precede(
        rows[order[a] as int],
        rows[order[b] as int],
    ) by {
        assert(!crate::rank::ranks_above(n, names, r[b] as int, r[a] as int));
        assert(n[r[a] as int] == rows[order[a] as int].messages);
        assert(n[r[b] as int] == rows[order[b] as int].messages);
        assert(names[r[a] as int] == lowercase(rows[order[a] as int].name@));
        assert(names[r[b] as int] == lowercase(rows[order[b] as int].name@));
    }
}

} // verus!
