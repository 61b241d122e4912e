//! The window's text helpers that are not painting: letterspaced runs split
//! into glyphs, a path elided at its end, and the grouped number format.

use vstd::prelude::*;

use crate::sections::{is_white_space, white_space};
use crate::text::{chars_of, join, joined, thousands_spec, views};

verus! {

/// One unit of a letterspaced run: an inked cluster, or a gap between words.
///
/// A space is a variant rather than an ink holding `" "`, because a box whose
/// only child is a single space has no reliable width.
#[derive(Debug, Clone, PartialEq)]
pub enum Glyph {
    Ink(String),
    Space,
}

/// What a glyph is, as characters.
pub enum GlyphView {
    Ink(Seq<char>),
    Space,
}

/// The view of a glyph.
pub open spec fn glyph_view(g: Glyph) -> GlyphView {
    match g {
        Glyph::Ink(s) => GlyphView::Ink(s@),
        Glyph::Space => GlyphView::Space,
    }
}

/// The combining ranges: marks that belong to the character before them.
pub open spec fn combining(c: char) -> bool {
    let u = c as u32;
    (0x0300 <= u <= 0x036F) || (0x0483 <= u <= 0x0489) || (0x0591 <= u <= 0x05BD) || (0x1AB0 <= u
        <= 0x1AFF) || (0x1DC0 <= u <= 0x1DFF) || (0x20D0 <= u <= 0x20F0) || (0xFE20 <= u <= 0xFE2F)
}

/// The combining ranges, spelled out because std has no character-class query.
pub fn is_combining(c: char) -> (r: bool)
    ensures
        r == combining(c),
{
    let u = c as u32;
    (0x0300 <= u && u <= 0x036F) || (0x0483 <= u && u <= 0x0489) || (0x0591 <= u && u <= 0x05BD)
        || (0x1AB0 <= u && u <= 0x1AFF) || (0x1DC0 <= u && u <= 0x1DFF) || (0x20D0 <= u && u
        <= 0x20F0) || (0xFE20 <= u && u <= 0xFE2F)
}

/// The glyphs so far, and the cluster still being inked.
pub open spec fn glyph_state(s: Seq<char>) -> (Seq<GlyphView>, Seq<char>)
    decreases s.len(),
{
    if s.len() == 0 {
        (Seq::empty(), Seq::empty())
    } else {
        let (out, current) = glyph_state(s.drop_last());
        let c = s.last();
        if combining(c) && current.len() > 0 {
            (out, current.push(c))
        } else {
            let flushed = if current.len() > 0 { out.push(GlyphView::Ink(current)) } else { out };
            if white_space(c) {
                (flushed.push(GlyphView::Space), Seq::empty())
            } else {
                (flushed, seq![c])
            }
        }
    }
}

/// A label split into the units a letterspaced run lays out.
pub open spec fn glyphs_spec(s: Seq<char>) -> Seq<GlyphView> {
    let (out, current) = glyph_state(s);
    if current.len() > 0 { out.push(GlyphView::Ink(current)) } else { out }
}

/// Split a label into the units a letterspaced run lays out.
///
/// A combining mark stays with the character it marks: a decomposed `ć` is one
/// unit, not a `c` and an accent floating one track-space to its right.
pub fn glyphs(text: &str) -> (out: Vec<Glyph>)
    ensures
        out@.map_values(|g: Glyph| glyph_view(g)) == glyphs_spec(text@),
{
    let chars = chars_of(text);
    let mut out: Vec<Glyph> = Vec::new();
    let mut current = String::new();
    let mut i: usize = 0;
    while i < chars.len()
        invariant
            chars@ == text@,
            i <= chars.len(),
            (out@.map_values(|g: Glyph| glyph_view(g)), current@) == glyph_state(text@.take(i as int)),
        decreases chars.len() - i,
    {
        proof {
            assert(text@.take(i + 1).drop_last() =~= text@.take(i as int));
            assert(text@.take(i + 1).last() == chars@[i as int]);
        }
        let c = chars[i];
        let ghost before = out@;
        let ghost cur = current@;
        let nonempty = crate::text::char_count(&current) > 0;
        if is_combining(c) && nonempty {
            current.push(c);
        } else {
            if nonempty {
                let done = current;
                out.push(Glyph::Ink(done));
                current = String::new();
                proof {
                    assert(out@.map_values(|g: Glyph| glyph_view(g)) =~= before.map_values(|g: Glyph| glyph_view(g)).push(
                        GlyphView::Ink(cur),
                    ));
                }
            }
            let ghost flushed = out@;
            if is_white_space(c) {
                out.push(Glyph::Space);
                proof {
                    assert(out@.map_values(|g: Glyph| glyph_view(g)) =~= flushed.map_values(|g: Glyph| glyph_view(g)).push(
                        GlyphView::Space,
                    ));
                }
            } else {
                current.push(c);
                proof {
                    assert(current@ =~= seq![c]);
                }
            }
        }
        i = i + 1;
    }
    proof {
        assert(text@.take(chars.len() as int) =~= text@);
    }
    if crate::text::char_count(&current) > 0 {
        let ghost before = out@;
        let ghost cur = current@;
        out.push(Glyph::Ink(current));
        proof {
            assert(out@.map_values(|g: Glyph| glyph_view(g)) =~= before.map_values(|g: Glyph| glyph_view(g)).push(
                GlyphView::Ink(cur),
            ));
        }
    }
    out
}

/// The glyphs read back as text, each gap as one space.
pub open spec fn glyph_text(gs: Seq<GlyphView>) -> Seq<char>
    decreases gs.len(),
{
    if gs.len() == 0 {
        Seq::empty()
    } else {
        glyph_text(gs.drop_last()) + match gs.last() {
            GlyphView::Ink(s) => s,
            GlyphView::Space => seq![' '],
        }
    }
}

/// The text with every white-space character written as a plain space.
pub open spec fn spaced(s: Seq<char>) -> Seq<char> {
    s.map_values(|c: char| if white_space(c) { ' ' } else { c })
}

proof fn lemma_glyph_text_push(gs: Seq<GlyphView>, g: GlyphView)
    ensures
        glyph_text(gs.push(g)) == glyph_text(gs) + match g {
            GlyphView::Ink(s) => s,
            GlyphView::Space => seq![' '],
        },
{
    assert(gs.push(g).drop_last() =~= gs);
}

proof fn lemma_glyph_state_text(s: Seq<char>)
    ensures
        glyph_text(glyph_state(s).0) + glyph_state(s).1 == spaced(s),
        forall|k: int| 0 <= k < glyph_state(s).0.len() ==> match #[trigger] glyph_state(s).0[k] {
            GlyphView::Ink(t) => t.len() > 0,
            GlyphView::Space => true,
        },
    decreases s.len(),
{
    if s.len() > 0 {
        let p = s.drop_last();
        lemma_glyph_state_text(p);
        let (out, current) = glyph_state(p);
        let c = s.last();
        assert(spaced(s) =~= spaced(p).push(if white_space(c) { ' ' } else { c }));
        if combining(c) && current.len() > 0 {
        } else {
            let flushed = if current.len() > 0 { out.push(GlyphView::Ink(current)) } else { out };
            if current.len() > 0 {
                lemma_glyph_text_push(out, GlyphView::Ink(current));
            }
            assert(glyph_text(flushed) == glyph_text(out) + current);
            if white_space(c) {
                lemma_glyph_text_push(flushed, GlyphView::Space);
            }
        }
    }
}

/// Splitting loses nothing: the glyphs read back, gap by gap, as the label
/// with its white space made plain, and no inked unit is empty.
pub proof fn law_glyphs_keep_the_text(s: Seq<char>)
    ensures
        glyph_text(glyphs_spec(s)) == spaced(s),
        forall|k: int| 0 <= k < glyphs_spec(s).len() ==> match #[trigger] glyphs_spec(s)[k] {
            GlyphView::Ink(t) => t.len() > 0,
            GlyphView::Space => true,
        },
{
    lemma_glyph_state_text(s);
    let (out, current) = glyph_state(s);
    if current.len() > 0 {
        lemma_glyph_text_push(out, GlyphView::Ink(current));
    } else {
        assert(glyph_text(out) + current =~= glyph_text(out));
    }
}

/// A path shown in a field too narrow for it: its start, then an ellipsis.
pub open spec fn elided_start_spec(path: Seq<char>, max_chars: nat) -> Seq<char> {
    if path.len() <= max_chars {
        path
    } else {
        path.take(if max_chars >= 1 { max_chars - 1 } else { 0 }).push('…')
    }
}

/// A path shown in a field too narrow for it.
///
/// Shows the start, not the end: a drive letter sliced in half reads as a typo.
pub fn elided_start(path: &str, max_chars: usize) -> (out: String)
    ensures
        out@ == elided_start_spec(path@, max_chars as nat),
{
    let chars = chars_of(path);
    if chars.len() <= max_chars {
        return String::from_str(path);
    }
    let keep = if max_chars >= 1 { max_chars - 1 } else { 0 };
    let mut out = crate::text::first_chars(path, keep);
    out.push('…');
    out
}

/// Eliding never makes a long path longer than the room it was given, and a
/// path that fits is left alone.
pub proof fn law_elided_fits(path: Seq<char>, max_chars: nat)
    ensures
        path.len() <= max_chars ==> elided_start_spec(path, max_chars) == path,
        path.len() > max_chars && max_chars >= 1 ==> elided_start_spec(path, max_chars).len() == max_chars,
{
}

/// A count, grouped for reading, as the report's own `thousands` does.
pub fn thousands(n: i64) -> (out: String)
    ensures
        out@ == thousands_spec(n as int),
{
    crate::text::thousands(n)
}

/// Why the window is about to be set in the wrong typeface.
#[derive(Debug)]
pub enum FontError {
    /// The platform text system refused the bytes outright.
    Rejected(String),
    /// The bytes loaded, but not under the names the design asks for.
    WrongFamilyNames { missing: Vec<String>, registered: Vec<String> },
}

/// What `{:?}` writes for a list of strings: std's debug form, quoting and
/// escaping each one.
pub uninterp spec fn debug_list(items: Seq<Seq<char>>) -> Seq<char>;

/// `format!("{:?}", items)` for a list of strings.
///
/// Claims only that the text depends on the strings alone; how std quotes and
/// escapes each one is std's and is not restated here.
#[verifier::external_body]
fn debug_strings(items: &Vec<String>) -> (out: String)
    ensures
        out@ == debug_list(views(items@)),
{
    format!("{:?}", items)
}

/// What a font error says to the person reading it.
pub open spec fn font_error_text(e: FontError) -> Seq<char> {
    match e {
        FontError::Rejected(why) => "the embedded typefaces could not be loaded: "@ + why@,
        FontError::WrongFamilyNames { missing, registered } => "the embedded typefaces loaded but not as "@
            + joined(views(missing@), " and "@) + "; the text system now offers "@ + debug_list(
            views(registered@),
        ) + ". The window will use the system font instead."@,
    }
}

impl FontError {
    /// What the error says to the person reading it: the reason the bytes
    /// were refused, or the names that are missing and the families the text
    /// system offers instead, since that list is the fix.
    pub fn message(&self) -> (out: String)
        ensures
            out@ == font_error_text(*self),
    {
        match self {
            FontError::Rejected(why) => {
                let mut out = String::from_str("the embedded typefaces could not be loaded: ");
                out.append(why.as_str());
                out
            },
            FontError::WrongFamilyNames { missing, registered } => {
                let mut out = String::from_str("the embedded typefaces loaded but not as ");
                let m = join(missing, " and ");
                out.append(m.as_str());
                out.append("; the text system now offers ");
                let r = debug_strings(registered);
                out.append(r.as_str());
                out.append(". The window will use the system font instead.");
                out
            },
        }
    }
}

/// The text face's family name, as the files call it.
pub fn sans_family() -> (out: &'static str)
    ensures
        out@ == "Geist"@,
{
    "Geist"
}

/// The figure face's family name, as the files call it.
pub fn mono_family() -> (out: &'static str)
    ensures
        out@ == "Geist Mono"@,
{
    "Geist Mono"
}

/// The faces the window embeds, by file stem; the report embeds a subset.
pub fn window_faces() -> (out: Vec<&'static str>)
    ensures
        out@.map_values(|s: &str| s@) == seq![
            "Geist-Regular"@,
            "Geist-Medium"@,
            "Geist-SemiBold"@,
            "GeistMono-Regular"@,
            "GeistMono-Medium"@,
        ],
{
    let out = vec!["Geist-Regular", "Geist-Medium", "Geist-SemiBold", "GeistMono-Regular", "GeistMono-Medium"];
    proof {
        assert(out@.map_values(|s: &str| s@) =~= seq![
            "Geist-Regular"@,
            "Geist-Medium"@,
            "Geist-SemiBold"@,
            "GeistMono-Regular"@,
            "GeistMono-Medium"@,
        ]);
    }
    out
}

} // verus!
