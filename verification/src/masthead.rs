//! The title block: what this archive is, and the way in.

use vstd::prelude::*;

use crate::between::{between_drawn, between_spec, BetweenDrawn, BetweenFacts};
use crate::sections::head_spec;
use crate::between::pair_count_spec;
use crate::sections::{plural, plural_spec};
use crate::text::{decimal, esc, esc_spec, signed_dec, thousands, thousands_spec};
use crate::time::{pretty_date, pretty_date_spec};

verus! {

/// What the title block says about the archive.
#[derive(Debug, Clone, Default)]
pub struct TitleFacts {
    /// The group's title.
    pub name: String,
    pub messages: usize,
    pub topics: usize,
    /// No dated messages at all.
    pub empty: bool,
    /// The first and last dated messages.
    pub first: String,
    pub last: String,
    /// Whether the statistics carry the branch the "Between people" section draws.
    pub has_dynamics: bool,
    /// Whether that branch was recorded from an export with nothing in it.
    pub dynamics_empty: bool,
    pub known_members: usize,
    pub silent_members: usize,
}

/// The sections the table of contents links to, in page order.
///
/// "Between people" only when its section is drawn, and "Members" only when
/// that section renders anything: a link that scrolls nowhere is worse than
/// a missing one.
pub open spec fn nav_links(f: TitleFacts) -> Seq<(Seq<char>, Seq<char>)> {
    let base = seq![
        ("whole"@, "Timeline"@),
        ("rhythm"@, "Rhythm"@),
        ("people"@, "People"@),
        ("talk"@, "Conversation"@),
        ("said"@, "What was said"@),
        ("topics"@, "Topics"@),
        ("records"@, "Records"@),
        ("notes"@, "Notes"@),
    ];
    let with_between = if between_drawn(f.has_dynamics, f.dynamics_empty) {
        base.insert(4, ("between"@, "Between people"@))
    } else {
        base
    };
    if f.known_members != 0 || f.silent_members != 0 {
        with_between.insert(3, ("members"@, "Members"@))
    } else {
        with_between
    }
}

/// The links, as anchors.
pub open spec fn toc_links(links: Seq<(Seq<char>, Seq<char>)>) -> Seq<char>
    decreases links.len(),
{
    if links.len() == 0 {
        Seq::empty()
    } else {
        toc_links(links.drop_last()) + "<a href=\"#"@ + links.last().0 + "\">"@ + esc_spec(links.last().1)
            + "</a>"@
    }
}

/// The span of the archive in words.
pub open spec fn span_words(f: TitleFacts) -> Seq<char> {
    if f.empty {
        "no dated messages"@
    } else {
        pretty_date_spec(f.first@) + " &ndash; "@ + pretty_date_spec(f.last@)
    }
}

/// The search box: everything it filters is on the page before it is typed
/// in, so with scripting off it does nothing and the page is whole.
pub open spec fn find_box() -> Seq<char> {
    "<input class=\"find\" id=\"find\" type=\"search\" autocomplete=\"off\" placeholder=\"Search people, topics, events\" aria-label=\"Search people, topics, events\"><span class=\"found\" id=\"found\" role=\"status\"></span>"@
}

/// The title block.
pub open spec fn masthead_spec(f: TitleFacts) -> Seq<char> {
    "<header class=\"masthead\"><p class=\"eyebrow\">Telegram archive</p><h1>"@ + esc_spec(f.name@)
        + "</h1><p class=\"lede\">"@ + thousands_spec((f.messages as i64) as int) + " messages across "@
        + signed_dec((f.topics as i64) as int) + " topic"@ + plural_spec((f.topics as i64) as int)
        + ", "@ + span_words(f) + ".</p><nav class=\"toc\">"@ + toc_links(nav_links(f))
        + "</nav><div class=\"switches\"><button class=\"switch\" id=\"aliases\" aria-pressed=\"false\">Former names</button><button class=\"switch\" id=\"everyone\" aria-pressed=\"false\">Everyone</button>"@
        + find_box() + "</div></header>"@
}

fn links(f: &TitleFacts) -> (out: Vec<(&'static str, &'static str)>)
    ensures
        out@.map_values(|p: (&str, &str)| (p.0@, p.1@)) == nav_links(*f),
{
    let mut out: Vec<(&'static str, &'static str)> = Vec::new();
    out.push(("whole", "Timeline"));
    out.push(("rhythm", "Rhythm"));
    out.push(("people", "People"));
    out.push(("talk", "Conversation"));
    out.push(("said", "What was said"));
    out.push(("topics", "Topics"));
    out.push(("records", "Records"));
    out.push(("notes", "Notes"));
    let ghost base = out@.map_values(|p: (&str, &str)| (p.0@, p.1@));
    proof {
        assert(base =~= seq![
            ("whole"@, "Timeline"@),
            ("rhythm"@, "Rhythm"@),
            ("people"@, "People"@),
            ("talk"@, "Conversation"@),
            ("said"@, "What was said"@),
            ("topics"@, "Topics"@),
            ("records"@, "Records"@),
            ("notes"@, "Notes"@),
        ]);
    }
    if f.has_dynamics && !f.dynamics_empty {
        out.insert(4, ("between", "Between people"));
    }
    let ghost mid = out@.map_values(|p: (&str, &str)| (p.0@, p.1@));
    proof {
        if between_drawn(f.has_dynamics, f.dynamics_empty) {
            assert(mid =~= base.insert(4, ("between"@, "Between people"@)));
        } else {
            assert(mid =~= base);
        }
    }
    if f.known_members != 0 || f.silent_members != 0 {
        out.insert(3, ("members", "Members"));
    }
    proof {
        if f.known_members != 0 || f.silent_members != 0 {
            assert(out@.map_values(|p: (&str, &str)| (p.0@, p.1@)) =~= mid.insert(
                3,
                ("members"@, "Members"@),
            ));
        } else {
            assert(out@.map_values(|p: (&str, &str)| (p.0@, p.1@)) =~= mid);
        }
    }
    out
}

fn toc(links: &Vec<(&'static str, &'static str)>) -> (out: String)
    ensures
        out@ == toc_links(links@.map_values(|p: (&str, &str)| (p.0@, p.1@))),
{
    let ghost all = links@.map_values(|p: (&str, &str)| (p.0@, p.1@));
    let mut out = String::new();
    let mut i: usize = 0;
    while i < links.len()
        invariant
            all == links@.map_values(|p: (&str, &str)| (p.0@, p.1@)),
            i <= links.len(),
            out@ == toc_links(all.take(i as int)),
        decreases links.len() - i,
    {
        proof {
            assert(all.take(i + 1).drop_last() =~= all.take(i as int));
        }
        let (anchor, title) = links[i];
        out.append("<a href=\"#");
        out.append(anchor);
        out.append("\">");
        let t = esc(title);
        out.append(t.as_str());
        out.append("</a>");
        proof {
            assert(out@ =~= toc_links(all.take(i + 1)));
        }
        i = i + 1;
    }
    proof {
        assert(all.take(links.len() as int) =~= all);
    }
    out
}

/// The title block: the group's name, how much it said over what span, the
/// way into each section, and the switches and search box.
pub fn masthead(f: &TitleFacts) -> (out: String)
    ensures
        out@ == masthead_spec(*f),
{
    let mut out = String::from_str("<header class=\"masthead\"><p class=\"eyebrow\">Telegram archive</p><h1>");
    let name = esc(f.name.as_str());
    out.append(name.as_str());
    out.append("</h1><p class=\"lede\">");
    let m = thousands(f.messages as i64);
    out.append(m.as_str());
    out.append(" messages across ");
    let topics = f.topics as i64;
    let t = decimal(topics);
    out.append(t.as_str());
    out.append(" topic");
    out.append(plural(topics));
    out.append(", ");
    let ghost before_span = out@;
    if f.empty {
        out.append("no dated messages");
    } else {
        let a = pretty_date(f.first.as_str());
        out.append(a.as_str());
        out.append(" &ndash; ");
        let b = pretty_date(f.last.as_str());
        out.append(b.as_str());
    }
    proof {
        assert(out@ =~= before_span + span_words(*f));
    }
    out.append(".</p><nav class=\"toc\">");
    let l = links(f);
    let nav = toc(&l);
    out.append(nav.as_str());
    out.append(
        "</nav><div class=\"switches\"><button class=\"switch\" id=\"aliases\" aria-pressed=\"false\">Former names</button><button class=\"switch\" id=\"everyone\" aria-pressed=\"false\">Everyone</button>",
    );
    out.append(
        "<input class=\"find\" id=\"find\" type=\"search\" autocomplete=\"off\" placeholder=\"Search people, topics, events\" aria-label=\"Search people, topics, events\"><span class=\"found\" id=\"found\" role=\"status\"></span>",
    );
    out.append("</div></header>");
    proof {
        assert(out@ =~= masthead_spec(*f));
    }
    out
}

/// Whether a list of links has one to `anchor`.
pub open spec fn links_to(links: Seq<(Seq<char>, Seq<char>)>, anchor: Seq<char>) -> bool {
    exists|i: int| 0 <= i < links.len() && #[trigger] links[i].0 == anchor
}

/// The table of contents links to the section between people exactly when
/// that section is drawn: no entry scrolls nowhere, and no drawn section goes
/// unlisted.
pub proof fn law_between_link_iff_drawn(t: TitleFacts, f: BetweenFacts, d: BetweenDrawn)
    requires
        t.has_dynamics == f.present,
        t.dynamics_empty == f.empty,
    ensures
        links_to(nav_links(t), "between"@) <==> between_spec(f, d).len() > 0,
{
    reveal_strlit("between");
    reveal_strlit("whole");
    reveal_strlit("rhythm");
    reveal_strlit("people");
    reveal_strlit("talk");
    reveal_strlit("said");
    reveal_strlit("topics");
    reveal_strlit("records");
    reveal_strlit("notes");
    reveal_strlit("members");
    reveal_strlit("<section");
    let links = nav_links(t);
    let with_members = t.known_members != 0 || t.silent_members != 0;
    if between_drawn(f.present, f.empty) {
        let at: int = if with_members { 5 } else { 4 };
        assert(links[at].0 == "between"@);
        assert(between_spec(f, d).len() > 0) by {
            let h = head_spec("Between people"@, pair_count_spec(f.mutual, f.one_way), "between"@);
            assert(h[0] == '<');
        }
    } else {
        assert forall|i: int| 0 <= i < links.len() implies #[trigger] links[i].0 != "between"@ by {
            let k = links[i].0;
            if k.len() == 7 {
                assert(k[0] != 'b');
            }
        }
    }
}

} // verus!
