//! How to read the page: every rule that changes what a number means.

use vstd::prelude::*;

use crate::sections::{head, head_spec};
use crate::text::{decimal, esc, esc_spec, signed_dec, thousands, thousands_spec};

verus! {

/// One rule: what it is about, and the rule itself (markup).
pub open spec fn rule_item(title: Seq<char>, body: Seq<char>) -> Seq<char> {
    "<li><span class=\"what\">"@ + esc_spec(title) + "</span><span class=\"about\">"@ + body
        + "</span></li>"@
}

/// A burst's gap in whole minutes, as integer division truncates.
pub open spec fn whole_minutes(seconds: i64) -> int {
    if seconds >= 0 {
        seconds as int / 60
    } else {
        -((-seconds) / 60)
    }
}

/// The rules that hold for every report.
pub open spec fn standing_rules(self_replies: i64, named: i64, total: i64, gap: i64) -> Seq<char> {
    rule_item(
        "Time"@,
        "Every clock face and calendar in this report reads the local timestamp the export recorded. Durations are measured on epoch seconds instead, so a gap that crosses a daylight-saving change is still the length it was."@,
    ) + rule_item(
        "Identity"@,
        "One person is one Telegram account id, not one display name. Somebody who renamed themselves is a single row, shown under the newest name they used; <span class=\"num\">Former names</span> at the top of the page reveals the rest."@,
    ) + rule_item(
        "Replies"@,
        "A forum topic is itself a thread, so Telegram marks every top-level message in one as a reply to the message that opened the topic. Those are not answers to anybody and are not counted. Replies to your own message are counted as replies ("@
            + thousands_spec(self_replies as int) + " of them) but are left out of who-answers-whom."@,
    ) + rule_item(
        "Reactions"@,
        "Telegram names at most three reactors per message, and never names anyone who reacted anonymously. Reaction totals are exact; who gave them is a floor ("@
            + thousands_spec(named as int) + " of "@ + thousands_spec(total as int) + " are attributed)."@,
    ) + rule_item(
        "Bursts"@,
        "A gap longer than "@ + signed_dec(whole_minutes(gap))
            + " minutes ends one and starts the next, counted separately per topic."@,
    ) + rule_item(
        "Scale"@,
        "Everything with a time axis on this page runs left to right over the same span, so a mark at the same horizontal position is the same week wherever you find it. The ribbon at the top is drawn as height, because the archive is one series and height reads as quantity. The rows in the people and topic tables are shaded instead, on one scale shared by every row: at forty rows, height would draw everyone below the top few as a scatter of single pixels."@,
    ) + rule_item(
        "Colour"@,
        "One hue, five steps, generated in OKLab and checked for even lightness steps and contrast against both backgrounds. Nothing on this page encodes a category by colour, so none of it depends on telling two hues apart."@,
    )
}

/// The rule about events, first, when there is an events file.
pub open spec fn events_rule(events_note: Seq<char>) -> Seq<char> {
    if events_note.len() == 0 {
        Seq::empty()
    } else {
        rule_item(
            "Events"@,
            "The marked events came from "@ + esc_spec(events_note)
                + ". They are somebody's reading of the archive, not a measurement of it, and each one lists the messages it rests on."@,
        )
    }
}

/// The figures the rules quote.
#[derive(Debug, Clone, Default)]
pub struct RuleFigures {
    /// Replies to one's own message.
    pub self_replies: i64,
    /// Reactions with a name on them.
    pub votes_named: i64,
    pub votes_total: i64,
    /// The silence, in seconds, that ends a burst.
    pub session_gap: i64,
    /// Where the export was read from.
    pub root: String,
}

/// The notes section.
pub open spec fn notes_spec(f: RuleFigures, events_note: Seq<char>, source: Seq<char>, stamp: Seq<char>) -> Seq<
    char,
> {
    head_spec("Notes"@, "how to read this"@, "notes"@) + "<ul class=\"records\">"@ + events_rule(
        events_note,
    ) + standing_rules(f.self_replies, f.votes_named, f.votes_total, f.session_gap)
        + "</ul><p class=\"note\">Written by "@ + esc_spec(source) + " on "@ + stamp
        + " from <span class=\"num\">"@ + esc_spec(f.root@)
        + "</span>. No part of this report contacted Telegram; it is derived entirely from the export on disk.</p></section>"@
}

fn push_rule(out: &mut String, title: &str, body: &str)
    ensures
        final(out)@ == old(out)@ + rule_item(title@, body@),
{
    out.append("<li><span class=\"what\">");
    let t = esc(title);
    out.append(t.as_str());
    out.append("</span><span class=\"about\">");
    out.append(body);
    out.append("</span></li>");
}

fn rules(f: &RuleFigures) -> (out: String)
    ensures
        out@ == standing_rules(f.self_replies, f.votes_named, f.votes_total, f.session_gap),
{
    let mut out = String::new();
    push_rule(
        &mut out,
        "Time",
        "Every clock face and calendar in this report reads the local timestamp the export recorded. Durations are measured on epoch seconds instead, so a gap that crosses a daylight-saving change is still the length it was.",
    );
    push_rule(
        &mut out,
        "Identity",
        "One person is one Telegram account id, not one display name. Somebody who renamed themselves is a single row, shown under the newest name they used; <span class=\"num\">Former names</span> at the top of the page reveals the rest.",
    );
    let mut replies = String::from_str(
        "A forum topic is itself a thread, so Telegram marks every top-level message in one as a reply to the message that opened the topic. Those are not answers to anybody and are not counted. Replies to your own message are counted as replies (",
    );
    let a = thousands(f.self_replies);
    replies.append(a.as_str());
    replies.append(" of them) but are left out of who-answers-whom.");
    push_rule(&mut out, "Replies", replies.as_str());
    let mut reactions = String::from_str(
        "Telegram names at most three reactors per message, and never names anyone who reacted anonymously. Reaction totals are exact; who gave them is a floor (",
    );
    let b = thousands(f.votes_named);
    reactions.append(b.as_str());
    reactions.append(" of ");
    let c = thousands(f.votes_total);
    reactions.append(c.as_str());
    reactions.append(" are attributed).");
    push_rule(&mut out, "Reactions", reactions.as_str());
    let minutes: i64 = if f.session_gap >= 0 {
        f.session_gap / 60
    } else {
        -((-(f.session_gap as i128) / 60) as i64)
    };
    let mut bursts = String::from_str("A gap longer than ");
    let m = decimal(minutes);
    bursts.append(m.as_str());
    bursts.append(" minutes ends one and starts the next, counted separately per topic.");
    push_rule(&mut out, "Bursts", bursts.as_str());
    push_rule(
        &mut out,
        "Scale",
        "Everything with a time axis on this page runs left to right over the same span, so a mark at the same horizontal position is the same week wherever you find it. The ribbon at the top is drawn as height, because the archive is one series and height reads as quantity. The rows in the people and topic tables are shaded instead, on one scale shared by every row: at forty rows, height would draw everyone below the top few as a scatter of single pixels.",
    );
    push_rule(
        &mut out,
        "Colour",
        "One hue, five steps, generated in OKLab and checked for even lightness steps and contrast against both backgrounds. Nothing on this page encodes a category by colour, so none of it depends on telling two hues apart.",
    );
    proof {
        assert(out@ =~= standing_rules(f.self_replies, f.votes_named, f.votes_total, f.session_gap));
    }
    out
}

/// How to read the page: every rule that changes what a number means, the
/// events rule first when there is an events file, and who wrote the file,
/// when, and from what.
///
/// `stamp` is markup and goes in as it stands; everything else is escaped.
pub fn notes(f: &RuleFigures, events_note: &str, source: &str, stamp: &str) -> (out: String)
    ensures
        out@ == notes_spec(*f, events_note@, source@, stamp@),
{
    let mut out = head("Notes", "how to read this", "notes");
    out.append("<ul class=\"records\">");
    let ghost open = out@;
    if !events_note.is_empty() {
        let mut body = String::from_str("The marked events came from ");
        let e = esc(events_note);
        body.append(e.as_str());
        body.append(
            ". They are somebody's reading of the archive, not a measurement of it, and each one lists the messages it rests on.",
        );
        push_rule(&mut out, "Events", body.as_str());
    }
    proof {
        assert(out@ =~= open + events_rule(events_note@));
    }
    let r = rules(f);
    out.append(r.as_str());
    out.append("</ul><p class=\"note\">Written by ");
    let s = esc(source);
    out.append(s.as_str());
    out.append(" on ");
    out.append(stamp);
    out.append(" from <span class=\"num\">");
    let root = esc(f.root.as_str());
    out.append(root.as_str());
    out.append(
        "</span>. No part of this report contacted Telegram; it is derived entirely from the export on disk.</p></section>",
    );
    proof {
        assert(out@ =~= notes_spec(*f, events_note@, source@, stamp@));
    }
    out
}

} // verus!
