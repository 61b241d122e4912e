//! The type system, base64'd into the stylesheet.
//!
//! Self-contained means one file: no folder beside it and no request to
//! anything. Three faces — regular and medium for text and one mono — are
//! carried inside the stylesheet as `data:` URLs.

use vstd::prelude::*;

use crate::text::{dec, natural};

verus! {

/// The 64 characters of standard base64, by value.
pub open spec fn sextet(v: nat) -> char {
    if v < 26 {
        (65 + v) as char
    } else if v < 52 {
        (97 + (v - 26)) as char
    } else if v < 62 {
        (48 + (v - 52)) as char
    } else if v == 62 {
        '+'
    } else {
        '/'
    }
}

/// One group of one to three bytes as four characters, `=` padding the short ones.
pub open spec fn encode_group(g: Seq<u8>) -> Seq<char> {
    let b0 = g[0] as nat;
    let b1 = if g.len() > 1 { g[1] as nat } else { 0 };
    let b2 = if g.len() > 2 { g[2] as nat } else { 0 };
    seq![
        sextet(b0 / 4),
        sextet((b0 % 4) * 16 + b1 / 16),
        if g.len() > 1 { sextet((b1 % 16) * 4 + b2 / 64) } else { '=' },
        if g.len() > 2 { sextet(b2 % 64) } else { '=' },
    ]
}

/// Standard base64 with padding, three bytes at a time from the front.
pub open spec fn base64_spec(data: Seq<u8>) -> Seq<char>
    decreases data.len(),
{
    if data.len() == 0 {
        Seq::empty()
    } else if data.len() <= 3 {
        encode_group(data)
    } else {
        encode_group(data.take(3)) + base64_spec(data.skip(3))
    }
}

fn sextet_char(v: u32) -> (c: char)
    requires
        v < 64,
    ensures
        c == sextet(v as nat),
{
    if v < 26 {
        ((65 + v) as u8) as char
    } else if v < 52 {
        ((97 + (v - 26)) as u8) as char
    } else if v < 62 {
        ((48 + (v - 52)) as u8) as char
    } else if v == 62 {
        '+'
    } else {
        '/'
    }
}

proof fn lemma_sextets(b0: u32, b1: u32, b2: u32)
    requires
        b0 < 256,
        b1 < 256,
        b2 < 256,
    ensures
        ({
            let triple = (b0 << 16u32) | (b1 << 8u32) | b2;
            &&& (triple >> 18u32) & 0x3f == b0 / 4
            &&& (triple >> 12u32) & 0x3f == (b0 % 4) * 16 + b1 / 16
            &&& (triple >> 6u32) & 0x3f == (b1 % 16) * 4 + b2 / 64
            &&& triple & 0x3f == b2 % 64
        }),
{
    assert({
        let triple = (b0 << 16u32) | (b1 << 8u32) | b2;
        &&& (triple >> 18u32) & 0x3f == b0 / 4
        &&& (triple >> 12u32) & 0x3f == (b0 % 4) * 16 + b1 / 16
        &&& (triple >> 6u32) & 0x3f == (b1 % 16) * 4 + b2 / 64
        &&& triple & 0x3f == b2 % 64
    }) by (bit_vector)
        requires
            b0 < 256,
            b1 < 256,
            b2 < 256,
    ;
}

/// Standard base64 with padding, as RFC 4648 defines it.
pub fn base64(data: &[u8]) -> (out: String)
    ensures
        out@ == base64_spec(data@),
{
    let mut out = String::new();
    let len = data.len();
    let mut i: usize = 0;
    proof {
        assert(data@.skip(0) =~= data@);
        assert(out@ + base64_spec(data@) =~= base64_spec(data@));
    }
    while i < len
        invariant
            len == data@.len(),
            i <= len,
            out@ + base64_spec(data@.skip(i as int)) == base64_spec(data@),
        decreases len - i,
    {
        let rest = len - i;
        let b0 = data[i] as u32;
        let b1 = if rest > 1 { data[i + 1] as u32 } else { 0 };
        let b2 = if rest > 2 { data[i + 2] as u32 } else { 0 };
        let triple = (b0 << 16u32) | (b1 << 8u32) | b2;
        proof {
            lemma_sextets(b0, b1, b2);
        }
        let ghost before = out@;
        out.push(sextet_char((triple >> 18u32) & 0x3f));
        out.push(sextet_char((triple >> 12u32) & 0x3f));
        out.push(if rest > 1 { sextet_char((triple >> 6u32) & 0x3f) } else { '=' });
        out.push(if rest > 2 { sextet_char(triple & 0x3f) } else { '=' });
        let step: usize = if rest >= 3 { 3 } else { rest };
        proof {
            let tail = data@.skip(i as int);
            let g = if tail.len() <= 3 { tail } else { tail.take(3) };
            assert(g.len() == step);
            assert(g[0] == data@[i as int]);
            if step > 1 {
                assert(g[1] == data@[i + 1]);
            }
            if step > 2 {
                assert(g[2] == data@[i + 2]);
            }
            assert(out@ =~= before + encode_group(g));
            if tail.len() > 3 {
                assert(tail.skip(3) =~= data@.skip(i + 3));
                assert(base64_spec(tail) == encode_group(g) + base64_spec(data@.skip(i + 3)));
            } else {
                assert(data@.skip(i + step) =~= Seq::<u8>::empty());
            }
        }
        i = i + step;
    }
    proof {
        assert(data@.skip(len as int) =~= Seq::<u8>::empty());
        assert(out@ + Seq::<char>::empty() =~= out@);
    }
    out
}

/// Base64 of a run of whole groups followed by anything is the two encodings
/// side by side: groups are encoded independently, so a prefix whose length is
/// a multiple of three never changes how the rest is written.
pub proof fn law_base64_concatenates(a: Seq<u8>, b: Seq<u8>)
    requires
        a.len() % 3 == 0,
    ensures
        base64_spec(a + b) == base64_spec(a) + base64_spec(b),
    decreases a.len(),
{
    if a.len() == 0 {
        assert(a + b =~= b);
    } else {
        let ab = a + b;
        assert(ab.take(3) =~= a.take(3));
        assert(ab.skip(3) =~= a.skip(3) + b);
        law_base64_concatenates(a.skip(3), b);
        if a.len() == 3 {
            assert(a.skip(3) =~= Seq::<u8>::empty());
            assert(a.take(3) =~= a);
            if b.len() == 0 {
                assert(ab =~= a);
            }
        }
    }
}

/// Four characters for every started group of three bytes: the padding keeps
/// the length a multiple of four, which is what a browser insists on.
pub proof fn law_base64_length(data: Seq<u8>)
    ensures
        base64_spec(data).len() == 4 * ((data.len() + 2) / 3),
    decreases data.len(),
{
    if data.len() > 3 {
        law_base64_length(data.skip(3));
    }
}

/// A character of the standard base64 alphabet: `A`–`Z`, `a`–`z`, `0`–`9`,
/// `+` and `/`.
pub open spec fn in_alphabet(c: char) -> bool {
    let u = c as u32;
    (65 <= u <= 90) || (97 <= u <= 122) || (48 <= u <= 57) || c == '+' || c == '/'
}

/// The value a base64 character stands for.
pub open spec fn sextet_value(c: char) -> nat {
    let u = c as u32;
    if 65 <= u <= 90 {
        (u - 65) as nat
    } else if 97 <= u <= 122 {
        (u - 71) as nat
    } else if 48 <= u <= 57 {
        (u + 4) as nat
    } else if c == '+' {
        62
    } else {
        63
    }
}

/// Four characters back to the one to three bytes they carry.
pub open spec fn decode_group(q: Seq<char>) -> Seq<u8> {
    let v0 = sextet_value(q[0]);
    let v1 = sextet_value(q[1]);
    let v2 = sextet_value(q[2]);
    let v3 = sextet_value(q[3]);
    let b0 = (v0 * 4 + v1 / 16) as u8;
    if q[2] == '=' {
        seq![b0]
    } else if q[3] == '=' {
        seq![b0, ((v1 % 16) * 16 + v2 / 4) as u8]
    } else {
        seq![b0, ((v1 % 16) * 16 + v2 / 4) as u8, ((v2 % 4) * 64 + v3) as u8]
    }
}

/// Standard base64 decoding, four characters at a time.
pub open spec fn decode_spec(s: Seq<char>) -> Seq<u8>
    decreases s.len(),
{
    if s.len() < 4 {
        Seq::empty()
    } else {
        decode_group(s.take(4)) + decode_spec(s.skip(4))
    }
}

proof fn lemma_sextet_roundtrip(v: nat)
    requires
        v < 64,
    ensures
        in_alphabet(sextet(v)),
        sextet(v) != '=',
        sextet_value(sextet(v)) == v,
{
    if v < 26 {
        assert(((65 + v) as char) as u32 == 65 + v);
    } else if v < 52 {
        assert(((97 + (v - 26)) as char) as u32 == 97 + (v - 26));
    } else if v < 62 {
        assert(((48 + (v - 52)) as char) as u32 == 48 + (v - 52));
    }
}

proof fn lemma_group(g: Seq<u8>)
    requires
        1 <= g.len() <= 3,
    ensures
        decode_group(encode_group(g)) == g,
        forall|i: int| 0 <= i < 4 ==> (#[trigger] encode_group(g)[i] == '=') == (i >= g.len() + 1),
        forall|i: int| 0 <= i < 4 && encode_group(g)[i] != '=' ==> in_alphabet(#[trigger] encode_group(g)[i]),
{
    let b0 = g[0] as nat;
    let b1: nat = if g.len() > 1 { g[1] as nat } else { 0 };
    let b2: nat = if g.len() > 2 { g[2] as nat } else { 0 };
    let v0 = b0 / 4;
    let v1 = (b0 % 4) * 16 + b1 / 16;
    let v2 = (b1 % 16) * 4 + b2 / 64;
    let v3 = b2 % 64;
    lemma_sextet_roundtrip(v0);
    lemma_sextet_roundtrip(v1);
    lemma_sextet_roundtrip(v2);
    lemma_sextet_roundtrip(v3);
    assert(v0 * 4 + v1 / 16 == b0);
    assert((v1 % 16) * 16 + v2 / 4 == b1);
    assert((v2 % 4) * 64 + v3 == b2);
    let e = encode_group(g);
    let d = decode_group(e);
    if g.len() == 1 {
        assert(d =~= g);
    } else if g.len() == 2 {
        assert(d =~= g);
    } else {
        assert(d =~= g);
    }
}

/// Decoding the encoding gives the bytes back: nothing is lost in the
/// stylesheet.
pub proof fn law_base64_round_trip(data: Seq<u8>)
    ensures
        decode_spec(base64_spec(data)) == data,
    decreases data.len(),
{
    if data.len() == 0 {
    } else if data.len() <= 3 {
        lemma_group(data);
        let e = base64_spec(data);
        assert(e.len() == 4);
        assert(e.take(4) =~= e);
        assert(e.skip(4) =~= Seq::<char>::empty());
        assert(decode_spec(e.skip(4)) == Seq::<u8>::empty());
        assert(decode_spec(e) == decode_group(e) + decode_spec(e.skip(4)));
        assert(decode_group(e) + Seq::<u8>::empty() =~= decode_group(e));
    } else {
        let g = data.take(3);
        lemma_group(g);
        law_base64_round_trip(data.skip(3));
        let e = base64_spec(data);
        assert(e.take(4) =~= encode_group(g));
        assert(e.skip(4) =~= base64_spec(data.skip(3)));
        assert(g + data.skip(3) =~= data);
    }
}

/// Only alphabet characters and padding, and exactly `(3 - n % 3) % 3`
/// padding characters, all at the end.
pub proof fn law_base64_alphabet_and_padding(data: Seq<u8>)
    ensures
        forall|i: int|
            0 <= i < base64_spec(data).len() ==> (#[trigger] base64_spec(data)[i] == '=') == (i
                >= base64_spec(data).len() - (3 - data.len() % 3) % 3),
        forall|i: int|
            0 <= i < base64_spec(data).len() && base64_spec(data)[i] != '=' ==> in_alphabet(
                #[trigger] base64_spec(data)[i],
            ),
    decreases data.len(),
{
    law_base64_length(data);
    if data.len() == 0 {
    } else if data.len() <= 3 {
        lemma_group(data);
    } else {
        let g = data.take(3);
        lemma_group(g);
        law_base64_alphabet_and_padding(data.skip(3));
        law_base64_length(data.skip(3));
        let e = base64_spec(data);
        let rest = base64_spec(data.skip(3));
        assert(e == encode_group(g) + rest);
        assert(data.skip(3).len() % 3 == data.len() % 3);
        assert forall|i: int| 0 <= i < e.len() implies (#[trigger] e[i] == '=') == (i >= e.len() - (3
            - data.len() % 3) % 3) && (e[i] != '=' ==> in_alphabet(e[i])) by {
            if i < 4 {
                assert(e[i] == encode_group(g)[i]);
                assert(rest.len() >= 4);
            } else {
                assert(e[i] == rest[i - 4]);
            }
        }
    }
}

/// `(file name, family, weight)` of every face, in emission order.
///
/// Order is observable — it is the order the `@font-face` rules appear in.
pub open spec fn face_spec(i: int) -> (Seq<char>, Seq<char>, u16) {
    if i == 0 {
        ("Geist-Regular.ttf"@, "Geist"@, 400u16)
    } else if i == 1 {
        ("Geist-Medium.ttf"@, "Geist"@, 500u16)
    } else {
        ("GeistMono-Regular.ttf"@, "Geist Mono"@, 400u16)
    }
}

/// How many faces the report embeds.
pub open spec fn face_count() -> nat {
    3
}

/// One face of the type system, as it is named in the stylesheet.
pub struct Face {
    pub file: String,
    pub family: String,
    pub weight: u16,
}

/// The faces the report embeds, in emission order.
pub fn faces() -> (out: Vec<Face>)
    ensures
        out.len() == face_count(),
        forall|i: int|
            0 <= i < out.len() ==> (#[trigger] out[i]).file@ == face_spec(i).0 && out[i].family@
                == face_spec(i).1 && out[i].weight == face_spec(i).2,
{
    let mut out: Vec<Face> = Vec::new();
    out.push(Face { file: String::from_str("Geist-Regular.ttf"), family: String::from_str("Geist"), weight: 400 });
    out.push(Face { file: String::from_str("Geist-Medium.ttf"), family: String::from_str("Geist"), weight: 500 });
    out.push(Face {
        file: String::from_str("GeistMono-Regular.ttf"),
        family: String::from_str("Geist Mono"),
        weight: 400,
    });
    out
}

/// One `@font-face` rule with the font's bytes inside it.
pub open spec fn face_rule(family: Seq<char>, weight: u16, data: Seq<u8>) -> Seq<char> {
    "@font-face{font-family:'"@ + family + "';font-style:normal;font-weight:"@ + dec(weight as nat)
        + ";font-display:swap;src:url(data:font/ttf;base64,"@ + base64_spec(data)
        + ") format('truetype')}"@
}

/// The rules for the first `n` faces, their bytes taken from `data`.
pub open spec fn face_rules(data: Seq<Seq<u8>>, n: int) -> Seq<char>
    decreases n,
{
    if n <= 0 {
        Seq::empty()
    } else {
        face_rules(data, n - 1) + face_rule(face_spec(n - 1).1, face_spec(n - 1).2, data[n - 1])
    }
}

/// `@font-face` rules with the fonts base64'd in.
///
/// `data` holds the bytes of each face in the order [`faces`] lists them.
/// `embed` false is the `--no-fonts` escape hatch: it emits nothing at all
/// rather than a `src:local(...)` fallback, because the stack in the stylesheet
/// already names system faces behind Geist.
pub fn font_css(embed: bool, data: &Vec<Vec<u8>>) -> (out: String)
    requires
        !embed || data.len() == face_count(),
    ensures
        !embed ==> out@.len() == 0,
        embed ==> out@ == face_rules(data@.map_values(|d: Vec<u8>| d@), face_count() as int),
{
    if !embed {
        return String::new();
    }
    let ghost bytes = data@.map_values(|d: Vec<u8>| d@);
    let list = faces();
    let mut out = String::new();
    let mut i: usize = 0;
    while i < list.len()
        invariant
            list.len() == face_count(),
            data.len() == face_count(),
            bytes == data@.map_values(|d: Vec<u8>| d@),
            forall|k: int|
                0 <= k < list.len() ==> (#[trigger] list[k]).family@ == face_spec(k).1
                    && list[k].weight == face_spec(k).2,
            i <= list.len(),
            out@ == face_rules(bytes, i as int),
        decreases list.len() - i,
    {
        let face = &list[i];
        let ghost before = out@;
        out.append("@font-face{font-family:'");
        out.append(face.family.as_str());
        out.append("';font-style:normal;font-weight:");
        let weight = natural(face.weight as u64);
        out.append(weight.as_str());
        out.append(";font-display:swap;src:url(data:font/ttf;base64,");
        let encoded = base64(data[i].as_slice());
        out.append(encoded.as_str());
        out.append(") format('truetype')}");
        proof {
            assert(bytes[i as int] == data@[i as int]@);
            assert(out@ =~= before + face_rule(face_spec(i as int).1, face_spec(i as int).2, bytes[i as int]));
        }
        i = i + 1;
    }
    out
}

} // verus!
