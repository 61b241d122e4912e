//! Escaping and the grouped number format every mark uses.

use vstd::prelude::*;

verus! {

/// `String::push` appends one character.
pub assume_specification[ String::push ](s: &mut String, ch: char)
    ensures
        final(s)@ == old(s)@.push(ch),
;

/// What one character becomes in markup.
pub open spec fn esc_char(c: char) -> Seq<char> {
    if c == '&' {
        "&amp;"@
    } else if c == '<' {
        "&lt;"@
    } else if c == '>' {
        "&gt;"@
    } else if c == '"' {
        "&quot;"@
    } else if c == '\'' {
        "&#39;"@
    } else {
        seq![c]
    }
}

/// A whole text, escaped character by character.
pub open spec fn esc_spec(s: Seq<char>) -> Seq<char>
    decreases s.len(),
{
    if s.len() == 0 {
        Seq::empty()
    } else {
        esc_spec(s.drop_last()) + esc_char(s.last())
    }
}

/// Everything interpolated into markup goes through this.
pub fn esc(text: &str) -> (out: String)
    ensures
        out@ == esc_spec(text@),
{
    let mut out = String::new();
    for ch in it: text.chars()
        invariant
            it.seq() == text@,
            out@ == esc_spec(text@.take(it.index() as int)),
    {
        proof {
            assert(text@.take(it.index() + 1).drop_last() == text@.take(it.index() as int));
        }
        if ch == '&' {
            out.append("&amp;");
        } else if ch == '<' {
            out.append("&lt;");
        } else if ch == '>' {
            out.append("&gt;");
        } else if ch == '"' {
            out.append("&quot;");
        } else if ch == '\'' {
            out.append("&#39;");
        } else {
            out.push(ch);
        }
    }
    proof {
        assert(text@.take(text@.len() as int) == text@);
    }
    out
}

} // verus!

verus! {

/// The ASCII digit for `d`, which is below ten.
pub open spec fn digit_char(d: nat) -> char {
    (48 + d) as char
}

/// The decimal digits of `n`, most significant first, no sign and no padding.
pub open spec fn dec(n: nat) -> Seq<char>
    decreases n,
{
    if n < 10 {
        seq![digit_char(n)]
    } else {
        dec(n / 10).push(digit_char(n % 10))
    }
}

/// The magnitude of a signed count.
pub open spec fn magnitude(v: int) -> nat {
    if v < 0 { (-v) as nat } else { v as nat }
}

/// A signed count as `to_string` writes it.
pub open spec fn signed_dec(v: int) -> Seq<char> {
    if v < 0 { seq!['-'] + dec(magnitude(v)) } else { dec(magnitude(v)) }
}

/// The no-break space that separates digit groups.
pub open spec fn nbsp() -> char {
    '\u{a0}'
}

/// Digits grouped in threes from the right, a no-break space between groups.
pub open spec fn grouped(d: Seq<char>) -> Seq<char>
    decreases d.len(),
{
    if d.len() <= 3 {
        d
    } else {
        grouped(d.take(d.len() - 3)).push(nbsp()) + d.skip(d.len() - 3)
    }
}

/// A signed count, grouped for reading.
pub open spec fn thousands_spec(v: int) -> Seq<char> {
    if v < 0 {
        seq!['-'] + grouped(dec(magnitude(v)))
    } else {
        grouped(dec(magnitude(v)))
    }
}

proof fn lemma_grouped_step(ds: Seq<char>, i: int)
    requires
        1 <= i,
        i + 3 <= ds.len(),
    ensures
        grouped(ds.take(i + 3)) == grouped(ds.take(i)).push(nbsp()) + seq![ds[i], ds[i + 1], ds[i + 2]],
{
    let t = ds.take(i + 3);
    assert(t.take(t.len() - 3) == ds.take(i));
    assert(t.skip(t.len() - 3) == seq![ds[i], ds[i + 1], ds[i + 2]]);
}

fn digit(d: u64) -> (c: char)
    requires
        d < 10,
    ensures
        c == digit_char(d as nat),
{
    ((48 + d) as u8) as char
}

/// Appends the decimal digits of `n`.
pub fn push_dec(out: &mut Vec<char>, n: u64)
    ensures
        final(out)@ == old(out)@ + dec(n as nat),
    decreases n,
{
    if n >= 10 {
        push_dec(out, n / 10);
    }
    out.push(digit(n % 10));
    proof {
        if n >= 10 {
            assert(dec(n as nat) == dec((n / 10) as nat).push(digit_char((n % 10) as nat)));
        }
    }
}

/// `|value|`, without the overflow `abs` has at the bottom of the range.
pub fn unsigned_abs(value: i64) -> (m: u64)
    ensures
        m == magnitude(value as int),
{
    if value < 0 {
        ((-(value + 1)) as u64) + 1
    } else {
        value as u64
    }
}

/// The characters of a string, as a vector.
pub fn chars_of(s: &str) -> (v: Vec<char>)
    ensures
        v@ == s@,
{
    let mut v: Vec<char> = Vec::new();
    for ch in it: s.chars()
        invariant
            it.seq() == s@,
            v@ == s@.take(it.index() as int),
    {
        v.push(ch);
        proof {
            assert(s@.take(it.index() + 1) == s@.take(it.index() as int).push(ch));
        }
    }
    proof {
        assert(s@.take(s@.len() as int) == s@);
    }
    v
}

/// Appends characters to a string.
pub fn push_chars(out: &mut String, chars: &Vec<char>)
    ensures
        final(out)@ == old(out)@ + chars@,
{
    let ghost start = out@;
    let mut i: usize = 0;
    while i < chars.len()
        invariant
            i <= chars.len(),
            out@ == start + chars@.take(i as int),
        decreases chars.len() - i,
    {
        out.push(chars[i]);
        proof {
            assert(chars@.take(i + 1) == chars@.take(i as int).push(chars@[i as int]));
        }
        i = i + 1;
    }
    proof {
        assert(chars@.take(chars.len() as int) == chars@);
    }
}

/// A natural number as plain decimal.
pub fn natural(value: u64) -> (out: String)
    ensures
        out@ == dec(value as nat),
{
    let mut digits: Vec<char> = Vec::new();
    push_dec(&mut digits, value);
    let mut out = String::new();
    push_chars(&mut out, &digits);
    out
}

/// A signed count as plain decimal, the way `to_string` writes it.
pub fn decimal(value: i64) -> (out: String)
    ensures
        out@ == signed_dec(value as int),
{
    let mut digits: Vec<char> = Vec::new();
    if value < 0 {
        digits.push('-');
    }
    push_dec(&mut digits, unsigned_abs(value));
    let mut out = String::new();
    push_chars(&mut out, &digits);
    out
}

/// A count, grouped for reading.
///
/// The separator is U+00A0, not a space: a group separator that wraps puts
/// "6" at the end of one line and "643" at the start of the next.
pub fn thousands(value: i64) -> (out: String)
    ensures
        out@ == thousands_spec(value as int),
{
    let mut d: Vec<char> = Vec::new();
    push_dec(&mut d, unsigned_abs(value));
    let ghost ds = d@;
    let len = d.len();
    let mut out = String::new();
    if value < 0 {
        out.push('-');
    }
    let ghost head = out@;
    // The leading group is one to three digits long; every later one is three.
    let first: usize = if len % 3 == 0 { 3 } else { len % 3 };
    proof {
        assert(ds.len() > 0) by {
            reveal_with_fuel(dec, 2);
        }
    }
    let mut i: usize = 0;
    while i < first
        invariant
            d@ == ds,
            len == ds.len(),
            0 < first <= 3,
            first <= len,
            (len - first) % 3 == 0,
            i <= first,
            out@ == head + ds.take(i as int),
        decreases first - i,
    {
        out.push(d[i]);
        proof {
            assert(ds.take(i + 1) == ds.take(i as int).push(ds[i as int]));
        }
        i = i + 1;
    }
    proof {
        assert(grouped(ds.take(first as int)) == ds.take(first as int));
    }
    while i < len
        invariant
            d@ == ds,
            len == ds.len(),
            first <= i <= len,
            (len - i) % 3 == 0,
            i >= 1,
            out@ == head + grouped(ds.take(i as int)),
        decreases len - i,
    {
        let ghost before = out@;
        out.push('\u{a0}');
        out.push(d[i]);
        out.push(d[i + 1]);
        out.push(d[i + 2]);
        proof {
            lemma_grouped_step(ds, i as int);
            let g = grouped(ds.take(i as int));
            assert(before == head + g);
            assert(out@ =~= head + (g.push(nbsp()) + seq![ds[i as int], ds[i + 1], ds[i + 2]]));
        }
        i = i + 3;
    }
    proof {
        assert(ds.take(len as int) == ds);
    }
    out
}

} // verus!

verus! {

/// How many characters a string holds.
pub fn char_count(s: &String) -> (n: usize)
    ensures
        n == s@.len(),
{
    s.as_str().unicode_len()
}

/// The first `limit` characters of a string, or all of it when it is shorter.
pub fn first_chars(s: &str, limit: usize) -> (out: String)
    ensures
        out@ == s@.take(if s@.len() < limit { s@.len() as int } else { limit as int }),
{
    let chars = chars_of(s);
    let mut out = String::new();
    let mut i: usize = 0;
    while i < chars.len() && i < limit
        invariant
            chars@ == s@,
            i <= chars.len(),
            i <= limit,
            out@ == s@.take(i as int),
        decreases chars.len() - i,
    {
        out.push(chars[i]);
        proof {
            assert(s@.take(i + 1) == s@.take(i as int).push(s@[i as int]));
        }
        i = i + 1;
    }
    out
}

} // verus!

verus! {

/// Whether two texts are the same characters.
pub fn same_text(a: &str, b: &str) -> (r: bool)
    ensures
        r == (a@ == b@),
{
    let x = chars_of(a);
    let y = chars_of(b);
    if x.len() != y.len() {
        return false;
    }
    let mut i: usize = 0;
    while i < x.len()
        invariant
            x@ == a@,
            y@ == b@,
            x.len() == y.len(),
            i <= x.len(),
            forall|k: int| 0 <= k < i ==> x@[k] == y@[k],
        decreases x.len() - i,
    {
        if x[i] != y[i] {
            return false;
        }
        i = i + 1;
    }
    proof {
        assert(x@ =~= y@);
    }
    true
}

/// Texts joined with a separator between each neighbouring pair.
pub open spec fn joined(parts: Seq<Seq<char>>, sep: Seq<char>) -> Seq<char>
    decreases parts.len(),
{
    if parts.len() == 0 {
        Seq::empty()
    } else if parts.len() == 1 {
        parts[0]
    } else {
        joined(parts.drop_last(), sep) + sep + parts.last()
    }
}

/// The views of a list of strings.
pub open spec fn views(parts: Seq<String>) -> Seq<Seq<char>> {
    parts.map_values(|p: String| p@)
}

/// `parts.join(sep)`.
pub fn join(parts: &Vec<String>, sep: &str) -> (out: String)
    ensures
        out@ == joined(views(parts@), sep@),
{
    let mut out = String::new();
    let mut i: usize = 0;
    while i < parts.len()
        invariant
            i <= parts.len(),
            out@ == joined(views(parts@.take(i as int)), sep@),
        decreases parts.len() - i,
    {
        proof {
            assert(views(parts@.take(i + 1)).drop_last() =~= views(parts@.take(i as int)));
            assert(views(parts@.take(i + 1)).last() == parts@[i as int]@);
        }
        if i > 0 {
            out.append(sep);
        }
        out.append(parts[i].as_str());
        proof {
            if i == 0 {
                assert(views(parts@.take(1)) =~= seq![parts@[0]@]);
                assert(out@ =~= parts@[0]@);
            }
        }
        i = i + 1;
    }
    proof {
        assert(parts@.take(parts.len() as int) == parts@);
    }
    out
}

} // verus!

verus! {

/// The characters that would end an attribute or open a tag.
pub open spec fn markup_char(c: char) -> bool {
    c == '<' || c == '>' || c == '"' || c == '\''
}

/// An escaped text holds no character that could open a tag or close an
/// attribute, whatever it was given — the whole defence against a hostile name.
pub proof fn law_escaped_text_holds_no_markup(s: Seq<char>)
    ensures
        forall|k: int| 0 <= k < esc_spec(s).len() ==> !markup_char(#[trigger] esc_spec(s)[k]),
        esc_spec(s).len() >= s.len(),
    decreases s.len(),
{
    reveal_strlit("&amp;");
    reveal_strlit("&lt;");
    reveal_strlit("&gt;");
    reveal_strlit("&quot;");
    reveal_strlit("&#39;");
    if s.len() > 0 {
        law_escaped_text_holds_no_markup(s.drop_last());
        let p = esc_spec(s.drop_last());
        let e = esc_char(s.last());
        assert(forall|k: int| 0 <= k < e.len() ==> !markup_char(#[trigger] e[k]));
        assert forall|k: int| 0 <= k < esc_spec(s).len() implies !markup_char(#[trigger] esc_spec(s)[k]) by {
            if k < p.len() {
                assert(esc_spec(s)[k] == p[k]);
            } else {
                assert(esc_spec(s)[k] == e[k - p.len()]);
            }
        }
    }
}

/// A text with nothing to escape comes through unchanged.
pub proof fn law_plain_text_is_unchanged(s: Seq<char>)
    requires
        forall|k: int| 0 <= k < s.len() ==> !markup_char(#[trigger] s[k]) && s[k] != '&',
    ensures
        esc_spec(s) == s,
    decreases s.len(),
{
    if s.len() > 0 {
        law_plain_text_is_unchanged(s.drop_last());
        assert(s.drop_last().push(s.last()) =~= s);
    }
}

/// The text with every group separator taken out.
pub open spec fn without_separators(s: Seq<char>) -> Seq<char> {
    s.filter(|c: char| c != nbsp())
}

proof fn lemma_dec_has_no_separator(n: nat)
    ensures
        forall|k: int| 0 <= k < dec(n).len() ==> #[trigger] dec(n)[k] != nbsp(),
        dec(n).len() >= 1,
    decreases n,
{
    if n >= 10 {
        lemma_dec_has_no_separator(n / 10);
    }
}

proof fn lemma_filter_concat(a: Seq<char>, b: Seq<char>)
    ensures
        without_separators(a + b) == without_separators(a) + without_separators(b),
    decreases b.len(),
{
    let p = |c: char| c != nbsp();
    if b.len() == 0 {
        assert(a + b =~= a);
        assert(without_separators(b) =~= Seq::<char>::empty()) by {
            reveal(Seq::filter);
        }
        assert(without_separators(a) + without_separators(b) =~= without_separators(a));
    } else {
        lemma_filter_concat(a, b.drop_last());
        assert((a + b).drop_last() =~= a + b.drop_last());
        (a + b.drop_last()).lemma_filter_push(b.last(), p);
        b.drop_last().lemma_filter_push(b.last(), p);
        assert(a + b == (a + b.drop_last()).push(b.last()));
        assert(b == b.drop_last().push(b.last()));
    }
}

proof fn lemma_no_separator_unchanged(s: Seq<char>)
    requires
        forall|k: int| 0 <= k < s.len() ==> #[trigger] s[k] != nbsp(),
    ensures
        without_separators(s) == s,
    decreases s.len(),
{
    let p = |c: char| c != nbsp();
    if s.len() == 0 {
        reveal(Seq::filter);
        assert(without_separators(s) =~= s);
    } else {
        lemma_no_separator_unchanged(s.drop_last());
        s.drop_last().lemma_filter_push(s.last(), p);
        assert(s == s.drop_last().push(s.last()));
    }
}

proof fn lemma_grouped_digits(d: Seq<char>)
    requires
        forall|k: int| 0 <= k < d.len() ==> #[trigger] d[k] != nbsp(),
    ensures
        without_separators(grouped(d)) == d,
    decreases d.len(),
{
    if d.len() <= 3 {
        lemma_no_separator_unchanged(d);
    } else {
        let head = d.take(d.len() - 3);
        let tail = d.skip(d.len() - 3);
        assert forall|k: int| 0 <= k < head.len() implies #[trigger] head[k] != nbsp() by {
            assert(head[k] == d[k]);
        }
        assert forall|k: int| 0 <= k < tail.len() implies #[trigger] tail[k] != nbsp() by {
            assert(tail[k] == d[k + d.len() - 3]);
        }
        lemma_grouped_digits(head);
        let g = grouped(head);
        lemma_filter_concat(g.push(nbsp()), tail);
        lemma_filter_concat(g, seq![nbsp()]);
        assert(g.push(nbsp()) == g + seq![nbsp()]);
        assert(without_separators(seq![nbsp()]) =~= Seq::<char>::empty()) by {
            let e = Seq::<char>::empty();
            e.lemma_filter_push(nbsp(), |c: char| c != nbsp());
            assert(e.push(nbsp()) =~= seq![nbsp()]);
            reveal(Seq::filter);
            assert(e.filter(|c: char| c != nbsp()) =~= e);
        }
        lemma_no_separator_unchanged(tail);
        assert(head + tail =~= d);
    }
}

/// Taking the no-break spaces back out of a grouped count gives the plain
/// decimal: grouping only ever inserts separators, it never changes a digit.
pub proof fn law_grouping_only_adds_separators(v: int)
    ensures
        without_separators(thousands_spec(v)) == signed_dec(v),
{
    lemma_dec_has_no_separator(magnitude(v));
    lemma_grouped_digits(dec(magnitude(v)));
    if v < 0 {
        lemma_filter_concat(seq!['-'], grouped(dec(magnitude(v))));
        lemma_no_separator_unchanged(seq!['-']);
    }
}

} // verus!
