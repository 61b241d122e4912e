//! The report's colour: one appearance, one hue, and a five-step ramp.
//!
//! The design has two colours and one red, which rules out a categorical
//! palette — and that costs nothing, because almost every figure in this report
//! is magnitude, whose correct encoding is a single-hue sequential ramp.

use vstd::prelude::*;

use crate::text::same_text;

verus! {

/// The tokens, in emission order: the stylesheet is written by walking them.
pub open spec fn token_table() -> Seq<(Seq<char>, Seq<char>)> {
    seq![
        ("bg"@, "#0a0a0a"@),
        ("fg"@, "#e8e8e8"@),
        ("muted"@, "#888888"@),
        ("hairline"@, "#333333"@),
        ("rule"@, "#262626"@),
        ("surface"@, "#141414"@),
        ("accent"@, "#ff3347"@),
        ("accent_fg"@, "#ffffff"@),
        ("track"@, "#1c1c1c"@),
        ("gridline"@, "#222222"@),
    ]
}

/// Deep-to-pale, magnitude increasing.
pub open spec fn ramp_table() -> Seq<Seq<char>> {
    seq!["#813435"@, "#a83f41"@, "#d14a4e"@, "#fc555b"@, "#fd8b88"@]
}

/// The class the document carries, and the only one it has.
pub fn default_class() -> (out: &'static str)
    ensures
        out@ == "dark"@,
{
    "dark"
}

/// The tokens, as `(name, value)` pairs in emission order.
pub fn tokens() -> (out: Vec<(&'static str, &'static str)>)
    ensures
        out@.map_values(|p: (&str, &str)| (p.0@, p.1@)) == token_table(),
{
    let out = vec![
        ("bg", "#0a0a0a"),
        ("fg", "#e8e8e8"),
        ("muted", "#888888"),
        ("hairline", "#333333"),
        ("rule", "#262626"),
        ("surface", "#141414"),
        ("accent", "#ff3347"),
        ("accent_fg", "#ffffff"),
        // Chart-only. `track` is an empty cell — a heatmap needs somewhere for
        // zero to live that is not the first step of the ramp.
        ("track", "#1c1c1c"),
        ("gridline", "#222222"),
    ];
    proof {
        assert(out@.map_values(|p: (&str, &str)| (p.0@, p.1@)) =~= token_table());
    }
    out
}

/// The ramp, deep to pale.
pub fn ramp() -> (out: Vec<&'static str>)
    ensures
        out@.map_values(|c: &str| c@) == ramp_table(),
{
    let out = vec!["#813435", "#a83f41", "#d14a4e", "#fc555b", "#fd8b88"];
    proof {
        assert(out@.map_values(|c: &str| c@) =~= ramp_table());
    }
    out
}

/// The value of the first token named `name`, searching from `from`.
pub open spec fn token_from(table: Seq<(Seq<char>, Seq<char>)>, name: Seq<char>, from: int) -> Seq<char>
    decreases table.len() - from,
{
    if from >= table.len() {
        "#000000"@
    } else if table[from].0 == name {
        table[from].1
    } else {
        token_from(table, name, from + 1)
    }
}

/// The value of a token; a name nobody defined is black rather than a panic.
pub open spec fn token_spec(name: Seq<char>) -> Seq<char> {
    token_from(token_table(), name, 0)
}

/// The value of a token; a name nobody defined is black rather than a panic.
pub fn token(name: &str) -> (out: &'static str)
    ensures
        out@ == token_spec(name@),
{
    let table = tokens();
    let ghost t = token_table();
    let mut i: usize = 0;
    while i < table.len()
        invariant
            table@.map_values(|p: (&str, &str)| (p.0@, p.1@)) == t,
            t == token_table(),
            i <= table.len(),
            token_from(t, name@, i as int) == token_from(t, name@, 0),
        decreases table.len() - i,
    {
        let (key, value) = table[i];
        proof {
            assert(t[i as int] == (key@, value@));
        }
        if same_text(key, name) {
            return value;
        }
        i = i + 1;
    }
    "#000000"
}

} // verus!

verus! {

proof fn lemma_token_absent(table: Seq<(Seq<char>, Seq<char>)>, name: Seq<char>, from: int)
    requires
        0 <= from,
        forall|i: int| from <= i < table.len() ==> (#[trigger] table[i]).0 != name,
    ensures
        token_from(table, name, from) == "#000000"@,
    decreases table.len() - from,
{
    if from < table.len() {
        lemma_token_absent(table, name, from + 1);
    }
}

/// A token nobody defined is black rather than a panic: the stylesheet is
/// written by looking names up, and one renamed property must not cost the
/// whole report.
pub proof fn law_unknown_token_is_black(name: Seq<char>)
    requires
        forall|i: int| 0 <= i < token_table().len() ==> (#[trigger] token_table()[i]).0 != name,
    ensures
        token_spec(name) == "#000000"@,
{
    lemma_token_absent(token_table(), name, 0);
}

proof fn lemma_token_found(table: Seq<(Seq<char>, Seq<char>)>, i: int, from: int)
    requires
        0 <= from <= i < table.len(),
        forall|j: int, k: int| 0 <= j < k < table.len() ==> table[j].0 != table[k].0,
    ensures
        token_from(table, table[i].0, from) == table[i].1,
    decreases i - from,
{
    if from < i {
        lemma_token_found(table, i, from + 1);
    }
}

/// Every defined token reads back its own value: the names are distinct, so no
/// entry shadows another.
pub proof fn law_defined_token_reads_back(i: int)
    requires
        0 <= i < token_table().len(),
    ensures
        token_spec(token_table()[i].0) == token_table()[i].1,
{
    let t = token_table();
    reveal_strlit("bg");
    reveal_strlit("fg");
    reveal_strlit("muted");
    reveal_strlit("hairline");
    reveal_strlit("rule");
    reveal_strlit("surface");
    reveal_strlit("accent");
    reveal_strlit("accent_fg");
    reveal_strlit("track");
    reveal_strlit("gridline");
    assert forall|j: int, k: int| 0 <= j < k < t.len() implies t[j].0 != t[k].0 by {
        if t[j].0.len() == t[k].0.len() {
            assert(t[j].0[0] != t[k].0[0] || t[j].0[1] != t[k].0[1]);
        }
    }
    lemma_token_found(t, i, 0);
}

} // verus!
