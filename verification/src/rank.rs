//! Ranking rows loudest first, ties broken by name, equal rows left in the
//! order they came in.
//!
//! Every ranked table on the page orders this way: the member list by
//! messages and then by name, the quiet list by days of silence, the matrix by
//! volume. A rank is a list of row indices; the rows themselves never move.

use vstd::prelude::*;

verus! {

/// Code-point order on texts, which is the order `str`'s `Ord` gives: UTF-8
/// compared byte by byte sorts exactly as the code points it encodes.
pub open spec fn text_lt(a: Seq<char>, b: Seq<char>) -> bool
    decreases a.len(),
{
    if a.len() == 0 {
        b.len() > 0
    } else if b.len() == 0 {
        false
    } else if a[0] != b[0] {
        (a[0] as u32) < (b[0] as u32)
    } else {
        text_lt(a.drop_first(), b.drop_first())
    }
}

/// Row `i` ranks strictly above row `j`: more of it, or as much and an
/// earlier name.
pub open spec fn ranks_above(n: Seq<i64>, names: Seq<Seq<char>>, i: int, j: int) -> bool {
    n[i] > n[j] || (n[i] == n[j] && text_lt(names[i], names[j]))
}

/// Place row `x` into a ranked list: after every row it does not rank above.
pub open spec fn insert_ranked(n: Seq<i64>, names: Seq<Seq<char>>, s: Seq<usize>, x: usize) -> Seq<usize>
    decreases s.len(),
{
    if s.len() == 0 {
        seq![x]
    } else if ranks_above(n, names, x as int, s[0] as int) {
        seq![x] + s
    } else {
        seq![s[0]] + insert_ranked(n, names, s.drop_first(), x)
    }
}

/// The first `k` rows, ranked: each placed in turn, so rows that tie keep
/// the order they came in.
pub open spec fn ranked(n: Seq<i64>, names: Seq<Seq<char>>, k: nat) -> Seq<usize>
    decreases k,
{
    if k == 0 {
        Seq::empty()
    } else {
        insert_ranked(n, names, ranked(n, names, (k - 1) as nat), (k - 1) as usize)
    }
}

/// The character views of a list of character vectors.
pub open spec fn char_views(v: Seq<Vec<char>>) -> Seq<Seq<char>> {
    v.map_values(|c: Vec<char>| c@)
}

/// Whether `a` comes strictly before `b` in code-point order.
pub fn text_less(a: &Vec<char>, b: &Vec<char>) -> (r: bool)
    ensures
        r == text_lt(a@, b@),
{
    let mut i: usize = 0;
    proof {
        assert(a@.skip(0) =~= a@);
        assert(b@.skip(0) =~= b@);
    }
    while i < a.len() && i < b.len()
        invariant
            i <= a.len(),
            i <= b.len(),
            forall|k: int| 0 <= k < i ==> a@[k] == b@[k],
            text_lt(a@, b@) == text_lt(a@.skip(i as int), b@.skip(i as int)),
        decreases a.len() - i,
    {
        if a[i] != b[i] {
            proof {
                assert(a@.skip(i as int)[0] == a@[i as int]);
                assert(b@.skip(i as int)[0] == b@[i as int]);
            }
            return (a[i] as u32) < (b[i] as u32);
        }
        proof {
            assert(a@.skip(i as int).drop_first() =~= a@.skip(i + 1));
            assert(b@.skip(i as int).drop_first() =~= b@.skip(i + 1));
        }
        i = i + 1;
    }
    i < b.len()
}

/// Whether row `i` ranks strictly above row `j`.
fn above(n: &Vec<i64>, names: &Vec<Vec<char>>, i: usize, j: usize) -> (r: bool)
    requires
        n.len() == names.len(),
        i < n.len(),
        j < n.len(),
    ensures
        r == ranks_above(n@, char_views(names@), i as int, j as int),
{
    n[i] > n[j] || (n[i] == n[j] && text_less(&names[i], &names[j]))
}

/// Where `insert_ranked` puts `x`: after the first `k` rows, which it does not
/// rank above, and before row `k`, which it does.
proof fn lemma_insert_at(n: Seq<i64>, names: Seq<Seq<char>>, s: Seq<usize>, x: usize, k: int)
    requires
        0 <= k <= s.len(),
        forall|m: int| 0 <= m < k ==> !ranks_above(n, names, x as int, #[trigger] s[m] as int),
        k < s.len() ==> ranks_above(n, names, x as int, s[k] as int),
    ensures
        insert_ranked(n, names, s, x) == s.insert(k, x),
    decreases k,
{
    if s.len() == 0 {
        assert(s.insert(k, x) =~= seq![x]);
    } else if k == 0 {
        assert(s.insert(0, x) =~= seq![x] + s);
    } else {
        let t = s.drop_first();
        assert forall|m: int| 0 <= m < k - 1 implies !ranks_above(n, names, x as int, #[trigger] t[m] as int) by {
            assert(t[m] == s[m + 1]);
        }
        if k - 1 < t.len() {
            assert(t[k - 1] == s[k]);
        }
        lemma_insert_at(n, names, t, x, k - 1);
        assert(s.insert(k, x) =~= seq![s[0]] + t.insert(k - 1, x));
    }
}

/// Rank rows by `n`, largest first, ties broken by `names` in code-point
/// order, and rows equal on both left in the order they came in.
pub fn rank(n: &Vec<i64>, names: &Vec<Vec<char>>) -> (out: Vec<usize>)
    requires
        n.len() == names.len(),
    ensures
        out@ == ranked(n@, char_views(names@), n.len() as nat),
{
    let ghost keys = char_views(names@);
    let mut out: Vec<usize> = Vec::new();
    let mut i: usize = 0;
    while i < n.len()
        invariant
            n.len() == names.len(),
            keys == char_views(names@),
            i <= n.len(),
            out@ == ranked(n@, keys, i as nat),
            forall|m: int| 0 <= m < out.len() ==> out@[m] < i,
        decreases n.len() - i,
    {
        proof {
            lemma_ranked_shape(n@, keys, i as nat);
        }
        let mut k: usize = 0;
        while k < out.len() && !above(n, names, i, out[k])
            invariant
                n.len() == names.len(),
                keys == char_views(names@),
                i < n.len(),
                k <= out.len(),
                forall|m: int| 0 <= m < out.len() ==> out@[m] < i,
                forall|m: int| 0 <= m < k ==> !ranks_above(n@, keys, i as int, #[trigger] out@[m] as int),
            decreases out.len() - k,
        {
            k = k + 1;
        }
        let ghost before = out@;
        proof {
            lemma_insert_at(n@, keys, before, i, k as int);
        }
        out.insert(k, i);
        proof {
            assert forall|m: int| 0 <= m < out.len() implies out@[m] < i + 1 by {
                if m < k {
                    assert(out@[m] == before[m]);
                } else if m > k {
                    assert(out@[m] == before[m - 1]);
                }
            }
        }
        i = i + 1;
    }
    out
}

/// A ranking of the first `k` rows holds `k` entries, each a row below `k`.
pub proof fn lemma_ranked_shape(n: Seq<i64>, names: Seq<Seq<char>>, k: nat)
    ensures
        ranked(n, names, k).len() == k,
        forall|m: int| 0 <= m < k ==> #[trigger] ranked(n, names, k)[m] < k,
    decreases k,
{
    if k > 0 {
        let prev = ranked(n, names, (k - 1) as nat);
        lemma_ranked_shape(n, names, (k - 1) as nat);
        let x = (k - 1) as usize;
        let p = first_above(n, names, prev, x);
        lemma_first_above(n, names, prev, x);
        lemma_insert_at(n, names, prev, x, p);
        let r = prev.insert(p, x);
        assert forall|m: int| 0 <= m < k implies #[trigger] r[m] < k by {
            if m < p {
                assert(r[m] == prev[m]);
            } else if m > p {
                assert(r[m] == prev[m - 1]);
            }
        }
    }
}

/// The position of the first row in `s` that `x` ranks above, or the length.
pub open spec fn first_above(n: Seq<i64>, names: Seq<Seq<char>>, s: Seq<usize>, x: usize) -> int
    decreases s.len(),
{
    if s.len() == 0 {
        0
    } else if ranks_above(n, names, x as int, s[0] as int) {
        0
    } else {
        1 + first_above(n, names, s.drop_first(), x)
    }
}

/// `first_above` is the first row `x` ranks above.
proof fn lemma_first_above(n: Seq<i64>, names: Seq<Seq<char>>, s: Seq<usize>, x: usize)
    ensures
        0 <= first_above(n, names, s, x) <= s.len(),
        forall|m: int|
            0 <= m < first_above(n, names, s, x) ==> !ranks_above(n, names, x as int, #[trigger] s[m] as int),
        first_above(n, names, s, x) < s.len() ==> ranks_above(
            n,
            names,
            x as int,
            s[first_above(n, names, s, x)] as int,
        ),
    decreases s.len(),
{
    if s.len() > 0 && !ranks_above(n, names, x as int, s[0] as int) {
        let t = s.drop_first();
        lemma_first_above(n, names, t, x);
        assert forall|m: int| 0 <= m < first_above(n, names, s, x) implies !ranks_above(
            n,
            names,
            x as int,
            #[trigger] s[m] as int,
        ) by {
            if m > 0 {
                assert(s[m] == t[m - 1]);
            }
        }
    }
}


/// No text comes before itself.
pub proof fn lemma_text_lt_irreflexive(a: Seq<char>)
    ensures
        !text_lt(a, a),
    decreases a.len(),
{
    if a.len() > 0 {
        lemma_text_lt_irreflexive(a.drop_first());
    }
}

/// Code-point order is transitive.
pub proof fn lemma_text_lt_transitive(a: Seq<char>, b: Seq<char>, c: Seq<char>)
    requires
        text_lt(a, b),
        text_lt(b, c),
    ensures
        text_lt(a, c),
    decreases a.len(),
{
    if a.len() > 0 && b.len() > 0 && c.len() > 0 && a[0] == b[0] && b[0] == c[0] {
        lemma_text_lt_transitive(a.drop_first(), b.drop_first(), c.drop_first());
    }
}

/// Of two different texts, one comes before the other.
pub proof fn lemma_text_lt_total(a: Seq<char>, b: Seq<char>)
    requires
        a != b,
    ensures
        text_lt(a, b) || text_lt(b, a),
    decreases a.len(),
{
    if a.len() == 0 && b.len() == 0 {
        assert(a =~= b);
    } else if a.len() > 0 && b.len() > 0 && a[0] == b[0] {
        if a.drop_first() == b.drop_first() {
            assert(a =~= seq![a[0]] + a.drop_first());
            assert(b =~= seq![b[0]] + b.drop_first());
        }
        lemma_text_lt_total(a.drop_first(), b.drop_first());
    } else if a.len() > 0 && b.len() > 0 {
        vstd::utf8::char_u32_cast(a[0], a[0] as u32);
        vstd::utf8::char_u32_cast(b[0], b[0] as u32);
    }
}

/// Code-point order is asymmetric.
pub proof fn lemma_text_lt_asymmetric(a: Seq<char>, b: Seq<char>)
    requires
        text_lt(a, b),
    ensures
        !text_lt(b, a),
    decreases a.len(),
{
    if a.len() > 0 && b.len() > 0 && a[0] == b[0] {
        lemma_text_lt_asymmetric(a.drop_first(), b.drop_first());
    }
}

/// Two rows with the same count and the same name.
pub open spec fn same_rank(n: Seq<i64>, names: Seq<Seq<char>>, i: int, j: int) -> bool {
    n[i] == n[j] && names[i] == names[j]
}

/// What a ranking of the first `k` rows is: every row once, in order, ties
/// in arrival order.
pub open spec fn ranking_holds(n: Seq<i64>, names: Seq<Seq<char>>, r: Seq<usize>, k: nat) -> bool {
    &&& r.len() == k
    &&& forall|m: int| 0 <= m < k ==> #[trigger] r[m] < k
    &&& forall|i: int, j: int| 0 <= i < j < k ==> r[i] != r[j]
    &&& forall|i: int, j: int|
        0 <= i < j < k ==> !ranks_above(n, names, r[j] as int, r[i] as int)
    &&& forall|i: int, j: int|
        0 <= i < j < k && same_rank(n, names, r[i] as int, r[j] as int) ==> r[i] < r[j]
}

proof fn lemma_ranked_holds(n: Seq<i64>, names: Seq<Seq<char>>, k: nat)
    requires
        k <= usize::MAX,
    ensures
        ranking_holds(n, names, ranked(n, names, k), k),
    decreases k,
{
    if k > 0 {
        let prev = ranked(n, names, (k - 1) as nat);
        lemma_ranked_holds(n, names, (k - 1) as nat);
        let x = (k - 1) as usize;
        let p = first_above(n, names, prev, x);
        lemma_first_above(n, names, prev, x);
        lemma_insert_at(n, names, prev, x, p);
        prev.insert_ensures(p, x);
        let r = prev.insert(p, x);
        assert(r == ranked(n, names, k));
        assert(x == k - 1);
        assert forall|m: int| 0 <= m < k implies #[trigger] r[m] < k by {
            if m < p {
                assert(r[m] == prev[m]);
            } else if m > p {
                assert(r[m] == prev[m - 1]);
            }
        }
        assert forall|i: int, j: int| 0 <= i < j < k implies r[i] != r[j] by {
            if j < p {
                assert(r[i] == prev[i] && r[j] == prev[j]);
            } else if j == p {
                assert(r[i] == prev[i]);
            } else if i < p {
                assert(r[i] == prev[i] && r[j] == prev[j - 1]);
            } else if i == p {
                assert(r[j] == prev[j - 1]);
            } else {
                assert(r[i] == prev[i - 1] && r[j] == prev[j - 1]);
            }
        }
        assert forall|i: int, j: int| 0 <= i < j < k implies !ranks_above(
            n,
            names,
            r[j] as int,
            r[i] as int,
        ) && (same_rank(n, names, r[i] as int, r[j] as int) ==> r[i] < r[j]) by {
            if j < p {
                assert(r[i] == prev[i] && r[j] == prev[j]);
            } else if j == p {
                assert(r[i] == prev[i]);
            } else if i < p {
                assert(r[i] == prev[i] && r[j] == prev[j - 1]);
            } else if i == p {
                let b = prev[j - 1];
                let q = prev[p];
                assert(r[j] == b);
                assert(ranks_above(n, names, x as int, q as int));
                if ranks_above(n, names, b as int, x as int) || same_rank(n, names, x as int, b as int) {
                    // Then `b` would rank above `q`, which comes before it.
                    if n[b as int] > n[x as int] || n[x as int] > n[q as int] {
                    } else if text_lt(names[b as int], names[x as int]) && text_lt(
                        names[x as int],
                        names[q as int],
                    ) {
                        lemma_text_lt_transitive(names[b as int], names[x as int], names[q as int]);
                    }
                    assert(ranks_above(n, names, b as int, q as int));
                    if j - 1 == p {
                        lemma_text_lt_irreflexive(names[q as int]);
                    } else {
                        assert(!ranks_above(n, names, prev[j - 1] as int, prev[p] as int));
                    }
                    assert(false);
                }
            } else {
                assert(r[i] == prev[i - 1] && r[j] == prev[j - 1]);
            }
        }
    }
}

/// A ranking lists each of the first `k` rows exactly once.
pub proof fn law_rank_lists_every_row_once(n: Seq<i64>, names: Seq<Seq<char>>, k: nat)
    requires
        k <= usize::MAX,
    ensures
        ranked(n, names, k).len() == k,
        forall|m: int| 0 <= m < k ==> #[trigger] ranked(n, names, k)[m] < k,
        forall|i: int, j: int| 0 <= i < j < k ==> ranked(n, names, k)[i] != ranked(n, names, k)[j],
{
    lemma_ranked_holds(n, names, k);
}

/// No row ranks above a row listed before it.
pub proof fn law_rank_is_ordered(n: Seq<i64>, names: Seq<Seq<char>>, k: nat)
    requires
        k <= usize::MAX,
    ensures
        forall|i: int, j: int|
            0 <= i < j < k ==> !ranks_above(
                n,
                names,
                ranked(n, names, k)[j] as int,
                ranked(n, names, k)[i] as int,
            ),
{
    lemma_ranked_holds(n, names, k);
}

/// Rows with the same count and the same name keep the order they came in.
pub proof fn law_rank_keeps_ties_in_order(n: Seq<i64>, names: Seq<Seq<char>>, k: nat)
    requires
        k <= usize::MAX,
    ensures
        forall|i: int, j: int|
            0 <= i < j < k && same_rank(
                n,
                names,
                ranked(n, names, k)[i] as int,
                ranked(n, names, k)[j] as int,
            ) ==> ranked(n, names, k)[i] < ranked(n, names, k)[j],
{
    lemma_ranked_holds(n, names, k);
}


proof fn lemma_insert_ranked_keeps(n: Seq<i64>, names: Seq<Seq<char>>, s: Seq<usize>, x: usize)
    ensures
        insert_ranked(n, names, s, x).contains(x),
        forall|y: usize| s.contains(y) ==> #[trigger] insert_ranked(n, names, s, x).contains(y),
{
    let p = first_above(n, names, s, x);
    lemma_first_above(n, names, s, x);
    lemma_insert_at(n, names, s, x, p);
    s.insert_ensures(p, x);
    let r = s.insert(p, x);
    assert(r[p] == x);
    assert forall|y: usize| s.contains(y) implies #[trigger] r.contains(y) by {
        let i = choose|i: int| 0 <= i < s.len() && s[i] == y;
        if i < p {
            assert(r[i] == y);
        } else {
            assert(r[i + 1] == y);
        }
    }
}

/// A ranking of the first `k` rows lists every one of them.
pub proof fn law_rank_misses_no_row(n: Seq<i64>, names: Seq<Seq<char>>, k: nat)
    requires
        k <= usize::MAX,
    ensures
        forall|j: int| 0 <= j < k ==> #[trigger] ranked(n, names, k).contains(j as usize),
    decreases k,
{
    if k > 0 {
        law_rank_misses_no_row(n, names, (k - 1) as nat);
        let prev = ranked(n, names, (k - 1) as nat);
        lemma_insert_ranked_keeps(n, names, prev, (k - 1) as usize);
        assert forall|j: int| 0 <= j < k implies #[trigger] ranked(n, names, k).contains(j as usize) by {
            if j < k - 1 {
                assert(prev.contains(j as usize));
            }
        }
    }
}

} // verus!
