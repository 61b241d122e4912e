//! Reading a recorded report back: the date it was stamped with, and the
//! elements two renders are allowed to disagree on, masked out.

use vstd::prelude::*;

use crate::text::{chars_of, push_chars};

verus! {

/// Whether `pat` occurs in `text` at `at`.
pub open spec fn occurs_at(text: Seq<char>, pat: Seq<char>, at: int) -> bool {
    0 <= at && at + pat.len() <= text.len() && text.subrange(at, at + pat.len()) == pat
}

/// The first place at or after `from` where `pat` occurs.
pub open spec fn find_from(text: Seq<char>, pat: Seq<char>, from: int) -> Option<int>
    decreases text.len() + 1 - from,
{
    if from < 0 || from + pat.len() > text.len() {
        None
    } else if occurs_at(text, pat, from) {
        Some(from)
    } else {
        find_from(text, pat, from + 1)
    }
}

fn matches_at(text: &Vec<char>, pat: &Vec<char>, at: usize) -> (r: bool)
    requires
        at + pat.len() <= text.len(),
    ensures
        r == occurs_at(text@, pat@, at as int),
{
    let mut k: usize = 0;
    while k < pat.len()
        invariant
            at + pat.len() <= text.len(),
            k <= pat.len(),
            forall|m: int| 0 <= m < k ==> text@[at + m] == pat@[m],
        decreases pat.len() - k,
    {
        if text[at + k] != pat[k] {
            proof {
                assert(text@.subrange(at as int, at + pat.len())[k as int] != pat@[k as int]);
            }
            return false;
        }
        k = k + 1;
    }
    proof {
        assert(text@.subrange(at as int, at + pat.len()) =~= pat@);
    }
    true
}

/// The first place at or after `from` where `pat` occurs in `text`.
pub fn find_chars(text: &Vec<char>, pat: &Vec<char>, from: usize) -> (at: Option<usize>)
    ensures
        match at {
            Some(i) => find_from(text@, pat@, from as int) == Some(i as int),
            None => find_from(text@, pat@, from as int) is None,
        },
{
    if pat.len() > text.len() {
        proof {
            assert(find_from(text@, pat@, from as int) is None);
        }
        return None;
    }
    if pat.len() == 0 {
        if from <= text.len() {
            proof {
                assert(text@.subrange(from as int, from as int) =~= pat@);
            }
            return Some(from);
        }
        return None;
    }
    let last = text.len() - pat.len();
    let mut i = from;
    while i <= last
        invariant
            last + pat.len() == text.len(),
            pat.len() >= 1,
            from <= i,
            find_from(text@, pat@, i as int) == find_from(text@, pat@, from as int),
        decreases last + 1 - i,
    {
        if matches_at(text, pat, i) {
            return Some(i);
        }
        i = i + 1;
    }
    None
}

/// What comes after the first `marker`, up to the next `end`.
pub open spec fn between_spec(text: Seq<char>, marker: Seq<char>, end: Seq<char>) -> Seq<char> {
    let after = match find_from(text, marker, 0) {
        Some(i) => text.skip(i + marker.len()),
        None => Seq::empty(),
    };
    match find_from(after, end, 0) {
        Some(j) => after.take(j),
        None => Seq::empty(),
    }
}

fn slice_chars(v: &Vec<char>, from: usize, to: usize) -> (out: Vec<char>)
    requires
        from <= to <= v.len(),
    ensures
        out@ == v@.subrange(from as int, to as int),
{
    let mut out: Vec<char> = Vec::new();
    let mut i = from;
    while i < to
        invariant
            from <= i <= to <= v.len(),
            out@ == v@.subrange(from as int, i as int),
        decreases to - i,
    {
        out.push(v[i]);
        proof {
            assert(v@.subrange(from as int, i + 1) =~= v@.subrange(from as int, i as int).push(v@[i as int]));
        }
        i = i + 1;
    }
    out
}

proof fn lemma_find_bound(text: Seq<char>, pat: Seq<char>, from: int)
    ensures
        find_from(text, pat, from) matches Some(i) ==> from <= i && occurs_at(text, pat, i),
    decreases text.len() + 1 - from,
{
    if !(from < 0 || from + pat.len() > text.len()) && !occurs_at(text, pat, from) {
        lemma_find_bound(text, pat, from + 1);
    }
}

/// The date a recorded report stamped into its notes section.
///
/// Read back out rather than assumed: the recording was made on whatever day
/// it was made, and it is the only value in the document that depends on when
/// it was written. Empty when the report carries no stamp.
pub fn stamp_of(html: &str) -> (out: String)
    ensures
        out@ == between_spec(html@, "Written by Telegram Export Analyser on "@, " from "@),
{
    let text = chars_of(html);
    let marker = chars_of("Written by Telegram Export Analyser on ");
    let end = chars_of(" from ");
    let found = find_chars(&text, &marker, 0);
    let after = match found {
        Some(i) => {
            proof {
                lemma_find_bound(text@, marker@, 0);
                assert(occurs_at(text@, marker@, i as int));
                assert(i + marker@.len() <= text@.len());
                assert(marker@.len() == marker.len());
                assert(text@.len() == text.len());
            }
            let start: usize = i + marker.len();
            slice_chars(&text, start, text.len())
        },
        None => Vec::new(),
    };
    proof {
        if let Some(i) = find_from(text@, marker@, 0) {
            assert(after@ =~= text@.skip(i + marker@.len()));
        } else {
            assert(after@ =~= Seq::<char>::empty());
        }
    }
    let mut out = String::new();
    match find_chars(&after, &end, 0) {
        Some(j) => {
            proof {
                lemma_find_bound(after@, end@, 0);
            }
            let stamp = slice_chars(&after, 0, j);
            push_chars(&mut out, &stamp);
            proof {
                assert(stamp@ =~= after@.take(j as int));
            }
        },
        None => {},
    }
    proof {
        assert(out@ =~= between_spec(html@, "Written by Telegram Export Analyser on "@, " from "@));
    }
    out
}

/// The opening tag of the element the two renders may differ on: the
/// interaction graph, whose force-layout coordinates diverge in the last bits.
pub open spec fn masked_opening() -> Seq<char> {
    "<svg class=\"chart network\""@
}

/// Each masked element, opening tag through its `</svg>`, replaced by
/// `[MASKED]`; an opening with no close after it is left alone.
pub open spec fn mask_spec(text: Seq<char>) -> Seq<char>
    decreases text.len(),
{
    match find_from(text, masked_opening(), 0) {
        None => text,
        Some(i) => match find_from(text.skip(i), "</svg>"@, 0) {
            None => text,
            Some(j) => {
                let end = i + j + 6;
                if 0 <= i && 0 <= j && end <= text.len() {
                    text.take(i) + "[MASKED]"@ + mask_spec(text.skip(end))
                } else {
                    text
                }
            },
        },
    }
}

/// Replace each masked element with `[MASKED]`, so a difference outside it
/// still fails while the element itself is not compared.
///
/// Masking by element rather than by attribute: blanking only the coordinates
/// would leave the mask silently passing a chart that had stopped being drawn.
pub fn mask(html: &str) -> (out: String)
    ensures
        out@ == mask_spec(html@),
{
    let text = chars_of(html);
    let opening = chars_of("<svg class=\"chart network\"");
    let close = chars_of("</svg>");
    proof {
        reveal_strlit("</svg>");
        assert(close@.len() == 6);
    }
    let mut out = String::new();
    let mut pos: usize = 0;
    proof {
        assert(text@.skip(0) =~= text@);
        assert(out@ + mask_spec(text@) =~= mask_spec(text@));
    }
    while pos <= text.len()
        invariant
            text@ == html@,
            opening@ == masked_opening(),
            close@ == "</svg>"@,
            close@.len() == 6,
            pos <= text.len(),
            out@ + mask_spec(text@.skip(pos as int)) == mask_spec(html@),
        decreases text.len() - pos,
    {
        let rest = slice_chars(&text, pos, text.len());
        proof {
            assert(rest@ =~= text@.skip(pos as int));
        }
        let found = find_chars(&rest, &opening, 0);
        match found {
            None => {
                push_chars(&mut out, &rest);
                proof {
                    assert(mask_spec(rest@) == rest@);
                }
                return out;
            },
            Some(i) => {
                proof {
                    lemma_find_bound(rest@, opening@, 0);
                }
                let tail = slice_chars(&rest, i, rest.len());
                proof {
                    assert(tail@ =~= rest@.skip(i as int));
                }
                match find_chars(&tail, &close, 0) {
                    None => {
                        push_chars(&mut out, &rest);
                        proof {
                            assert(mask_spec(rest@) == rest@);
                        }
                        return out;
                    },
                    Some(j) => {
                        proof {
                            lemma_find_bound(tail@, close@, 0);
                        }
                        let head = slice_chars(&rest, 0, i);
                        push_chars(&mut out, &head);
                        out.append("[MASKED]");
                        let end = pos + i + j + 6;
                        proof {
                            assert(head@ =~= rest@.take(i as int));
                            assert(rest@.skip(i + j + 6) =~= text@.skip(end as int));
                            assert(mask_spec(rest@) == rest@.take(i as int) + "[MASKED]"@ + mask_spec(
                                rest@.skip(i + j + 6),
                            ));
                        }
                        pos = end;
                    },
                }
            },
        }
    }
    out
}

} // verus!
