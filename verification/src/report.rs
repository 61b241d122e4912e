//! The pieces of the document that are not a section: the custom properties,
//! the per-kind show/hide rules, a bare section heading and the shared axis.

use vstd::prelude::*;

use crate::palette::{default_class, ramp, ramp_table, token, token_spec, token_table, tokens};
use crate::text::{dec, esc, esc_spec, join, joined, natural, views};

verus! {

/// `--name:value;` for every token, in table order.
pub open spec fn token_vars(table: Seq<(Seq<char>, Seq<char>)>) -> Seq<char>
    decreases table.len(),
{
    if table.len() == 0 {
        Seq::empty()
    } else {
        token_vars(table.drop_last()) + "--"@ + table.last().0 + ":"@ + table.last().1 + ";"@
    }
}

/// `--rN:colour;` for every ramp step, numbered from one.
pub open spec fn ramp_vars(ramp: Seq<Seq<char>>) -> Seq<char>
    decreases ramp.len(),
{
    if ramp.len() == 0 {
        Seq::empty()
    } else {
        ramp_vars(ramp.drop_last()) + "--r"@ + dec(ramp.len()) + ":"@ + ramp.last() + ";"@
    }
}

/// The custom properties, as one `<html>` class block.
pub open spec fn tokens_css_spec() -> Seq<char> {
    "html.dark{"@ + token_vars(token_table()) + ramp_vars(ramp_table()) + "--self:"@ + token_spec(
        "rule"@,
    ) + ";}"@
}

/// The custom properties, as one `<html>` class block.
///
/// The report is dark only: one block, and no control to switch away from it.
pub fn tokens_css() -> (out: String)
    ensures
        out@ == tokens_css_spec(),
{
    let pairs = tokens();
    let ghost table = token_table();
    let mut out = String::from_str("html.dark{");
    let ghost head = out@;
    let mut i: usize = 0;
    while i < pairs.len()
        invariant
            pairs@.map_values(|p: (&str, &str)| (p.0@, p.1@)) == table,
            i <= pairs.len(),
            out@ == head + token_vars(table.take(i as int)),
        decreases pairs.len() - i,
    {
        let (key, value) = pairs[i];
        proof {
            assert(table[i as int] == (key@, value@));
            assert(table.take(i + 1).drop_last() =~= table.take(i as int));
        }
        out.append("--");
        out.append(key);
        out.append(":");
        out.append(value);
        out.append(";");
        proof {
            assert(out@ =~= head + token_vars(table.take(i + 1)));
        }
        i = i + 1;
    }
    proof {
        assert(table.take(pairs.len() as int) =~= table);
    }
    let ghost with_tokens = out@;
    let steps = ramp();
    let ghost rt = ramp_table();
    let mut k: usize = 0;
    while k < steps.len()
        invariant
            steps@.map_values(|c: &str| c@) == rt,
            k <= steps.len(),
            out@ == with_tokens + ramp_vars(rt.take(k as int)),
        decreases steps.len() - k,
    {
        proof {
            assert(rt.take(k + 1).drop_last() =~= rt.take(k as int));
            assert(rt[k as int] == steps@[k as int]@);
        }
        out.append("--r");
        let number = natural((k + 1) as u64);
        out.append(number.as_str());
        out.append(":");
        out.append(steps[k]);
        out.append(";");
        proof {
            assert(out@ =~= with_tokens + ramp_vars(rt.take(k + 1)));
        }
        k = k + 1;
    }
    proof {
        assert(rt.take(steps.len() as int) =~= rt);
    }
    out.append("--self:");
    out.append(token("rule"));
    out.append(";}");
    out
}

/// The show/hide rule for the `k`-th kind.
pub open spec fn kind_rule(k: nat) -> Seq<char> {
    "html.hide-k"@ + dec(k) + " .ev.k"@ + dec(k) + ",html.hide-k"@ + dec(k) + " .events li.k"@ + dec(k)
        + "{display:none}"@
}

/// The rules for kinds `0..n`.
pub open spec fn kind_rules(n: nat) -> Seq<char>
    decreases n,
{
    if n == 0 {
        Seq::empty()
    } else {
        kind_rules((n - 1) as nat) + kind_rule((n - 1) as nat)
    }
}

/// The show/hide rule for each kind the notes file actually used.
///
/// Generated rather than fixed, because the vocabulary belongs to whoever wrote
/// the file. One kind is not a choice, so fewer than two get no rules at all.
pub fn kind_css(kinds: usize) -> (out: String)
    ensures
        out@ == (if kinds < 2 { Seq::empty() } else { kind_rules(kinds as nat) }),
{
    if kinds < 2 {
        return String::new();
    }
    let mut out = String::new();
    let mut k: usize = 0;
    while k < kinds
        invariant
            k <= kinds,
            out@ == kind_rules(k as nat),
        decreases kinds - k,
    {
        let number = natural(k as u64);
        out.append("html.hide-k");
        out.append(number.as_str());
        out.append(" .ev.k");
        out.append(number.as_str());
        out.append(",html.hide-k");
        out.append(number.as_str());
        out.append(" .events li.k");
        out.append(number.as_str());
        out.append("{display:none}");
        proof {
            assert(out@ =~= kind_rules((k + 1) as nat));
        }
        k = k + 1;
    }
    out
}

/// A section's opening and heading, with an empty count.
pub open spec fn section_head_spec(title: Seq<char>, anchor: Seq<char>) -> Seq<char> {
    "<section id=\""@ + esc_spec(anchor) + "\"><div class=\"sechead\"><h2>"@ + esc_spec(title)
        + "</h2><span class=\"count\"></span></div>"@
}

/// A section's opening and heading, with an empty count.
pub fn section_head(title: &str, anchor: &str) -> (out: String)
    ensures
        out@ == section_head_spec(title@, anchor@),
{
    let mut out = String::from_str("<section id=\"");
    let a = esc(anchor);
    out.append(a.as_str());
    out.append("\"><div class=\"sechead\"><h2>");
    let t = esc(title);
    out.append(t.as_str());
    out.append("</h2><span class=\"count\"></span></div>");
    out
}

/// Every presence row's bucket labels, written once for the document.
pub open spec fn shared_axis_spec(labels: Seq<Seq<char>>) -> Seq<char> {
    if labels.len() == 0 {
        Seq::empty()
    } else {
        "<div id=\"axis\" hidden data-days=\""@ + esc_spec(joined(labels, "|"@))
            + "\"></div>"@
    }
}

/// Every presence row's bucket labels, written once for the document.
///
/// Every row is bucketed identically, so one list serves all of them.
pub fn shared_axis(labels: &Vec<String>) -> (out: String)
    ensures
        out@ == shared_axis_spec(views(labels@)),
{
    if labels.len() == 0 {
        return String::new();
    }
    let all = join(labels, "|");
    let mut out = String::from_str("<div id=\"axis\" hidden data-days=\"");
    let e = esc(all.as_str());
    out.append(e.as_str());
    out.append("\"></div>");
    out
}


/// The report's sections, each already written.
#[derive(Debug, Clone, Default)]
pub struct Sections {
    pub masthead: String,
    pub timeline: String,
    pub rhythm: String,
    pub people: String,
    pub members: String,
    pub conversation: String,
    pub between: String,
    pub said: String,
    /// The inner markup of the arrivals section; its heading and close are
    /// written here, because it is empty for an export with no dated months
    /// and the section still has to close.
    pub churn: String,
    pub topics: String,
    pub records: String,
    pub notes: String,
}

/// What goes around the sections.
#[derive(Debug, Clone, Default)]
pub struct Shell {
    /// The archive's name, for the title.
    pub name: String,
    /// The `@font-face` rules.
    pub fonts: String,
    pub css: String,
    pub js: String,
    /// The shared axis labels.
    pub axis: String,
    /// The show/hide rule for each kind of event.
    pub kind_rules: String,
}

/// The sections in page order.
pub open spec fn body_spec(s: Sections) -> Seq<char> {
    s.masthead@ + s.timeline@ + s.rhythm@ + s.people@ + s.members@ + s.conversation@ + s.between@
        + s.said@ + section_head_spec("Coming and going"@, "churn"@) + s.churn@ + "</section>"@
        + s.topics@ + s.records@ + s.notes@
}

/// The whole document: one file, the fonts and the stylesheet inline, the
/// script at the end.
pub open spec fn page_spec(s: Sections, p: Shell) -> Seq<char> {
    "<!doctype html>\n<html lang=\"en\" class=\""@ + "dark"@
        + "\"><head><meta charset=\"utf-8\"><meta name=\"viewport\" content=\"width=device-width,initial-scale=1\"><title>"@
        + esc_spec(p.name@ + " \u{2014} archive report"@) + "</title><style>"@ + p.fonts@ + tokens_css_spec()
        + p.css@ + p.kind_rules@ + "</style></head><body>"@ + body_spec(s) + p.axis@
        + "<div id=\"tip\" role=\"status\"></div><script>"@ + p.js@ + "</script></body></html>\n"@
}

/// The whole document, as one string.
pub fn page(s: &Sections, p: &Shell) -> (out: String)
    ensures
        out@ == page_spec(*s, *p),
{
    let mut out = String::from_str("<!doctype html>\n<html lang=\"en\" class=\"");
    out.append(default_class());
    out.append(
        "\"><head><meta charset=\"utf-8\"><meta name=\"viewport\" content=\"width=device-width,initial-scale=1\"><title>",
    );
    let mut title = String::from_str(p.name.as_str());
    title.append(" \u{2014} archive report");
    let t = esc(title.as_str());
    out.append(t.as_str());
    out.append("</title><style>");
    out.append(p.fonts.as_str());
    let tokens = tokens_css();
    out.append(tokens.as_str());
    out.append(p.css.as_str());
    out.append(p.kind_rules.as_str());
    out.append("</style></head><body>");
    let ghost open = out@;
    out.append(s.masthead.as_str());
    out.append(s.timeline.as_str());
    out.append(s.rhythm.as_str());
    out.append(s.people.as_str());
    out.append(s.members.as_str());
    out.append(s.conversation.as_str());
    out.append(s.between.as_str());
    out.append(s.said.as_str());
    let churn_head = section_head("Coming and going", "churn");
    out.append(churn_head.as_str());
    out.append(s.churn.as_str());
    out.append("</section>");
    out.append(s.topics.as_str());
    out.append(s.records.as_str());
    out.append(s.notes.as_str());
    proof {
        assert(out@ =~= open + body_spec(*s));
    }
    out.append(p.axis.as_str());
    out.append("<div id=\"tip\" role=\"status\"></div><script>");
    out.append(p.js.as_str());
    out.append("</script></body></html>\n");
    proof {
        assert(out@ =~= page_spec(*s, *p));
    }
    out
}

} // verus!
