//! Who answers whom: the busiest correspondents, and the replies between
//! every pair of them.
//!
//! People are ranked by how many replies they took part in, either way. A
//! tie on volume goes to whoever turned up first in the reply list, and only
//! the sixteen busiest get a row: past that the grid is unreadable, and the
//! network diagram says the rest.

use vstd::prelude::*;

use crate::model::Edge;
use crate::rank::{
    char_views, law_rank_is_ordered, law_rank_lists_every_row_once, law_rank_misses_no_row, rank, ranked,
    ranks_above, text_lt,
};
use crate::rhythm::{legend, legend_spec};
use crate::text::{same_text, views};

verus! {

/// How many people the matrix has room for.
pub const MATRIX_PEOPLE: usize = 16;

/// Each reply's two people, in order, each with the reply's count.
pub open spec fn endpoints(edges: Seq<Edge>) -> Seq<(Seq<char>, i64)>
    decreases edges.len(),
{
    if edges.len() == 0 {
        Seq::empty()
    } else {
        endpoints(edges.drop_last()) + seq![
            (edges.last().from@, edges.last().count),
            (edges.last().to@, edges.last().count),
        ]
    }
}

/// Every key once, in the order it first turns up.
pub open spec fn first_seen(eps: Seq<(Seq<char>, i64)>) -> Seq<Seq<char>>
    decreases eps.len(),
{
    if eps.len() == 0 {
        Seq::empty()
    } else if first_seen(eps.drop_last()).contains(eps.last().0) {
        first_seen(eps.drop_last())
    } else {
        first_seen(eps.drop_last()).push(eps.last().0)
    }
}

/// Everything a key took part in, added up.
pub open spec fn volume(eps: Seq<(Seq<char>, i64)>, key: Seq<char>) -> int
    decreases eps.len(),
{
    if eps.len() == 0 {
        0
    } else {
        volume(eps.drop_last(), key) + if eps.last().0 == key { eps.last().1 as int } else { 0 }
    }
}

/// Everything a key took part in, each count taken without its sign.
pub open spec fn key_size(eps: Seq<(Seq<char>, i64)>, key: Seq<char>) -> int
    decreases eps.len(),
{
    if eps.len() == 0 {
        0
    } else {
        key_size(eps.drop_last(), key) + if eps.last().0 == key { size(eps.last().1) } else { 0 }
    }
}

/// Every person's replies, counted either way and without their sign, fit in
/// an `i64`: then no running total the matrix keeps, per person or per pair,
/// leaves that range.
pub open spec fn totals_fit(edges: Seq<Edge>) -> bool {
    forall|key: Seq<char>| #[trigger] key_size(endpoints(edges), key) <= i64::MAX
}

/// The volumes of the given keys.
pub open spec fn volumes(eps: Seq<(Seq<char>, i64)>, keys: Seq<Seq<char>>) -> Seq<i64> {
    keys.map_values(|k: Seq<char>| volume(eps, k) as i64)
}

/// As many empty names as keys: the matrix breaks ties on arrival alone.
pub open spec fn no_names(n: nat) -> Seq<Seq<char>> {
    Seq::new(n, |i: int| Seq::<char>::empty())
}

/// The people the matrix has rows for, busiest first.
pub open spec fn matrix_keys(edges: Seq<Edge>) -> Seq<Seq<char>> {
    let eps = endpoints(edges);
    let seen = first_seen(eps);
    let order = ranked(volumes(eps, seen), no_names(seen.len()), seen.len());
    let shown = if seen.len() < MATRIX_PEOPLE { seen.len() as int } else { MATRIX_PEOPLE as int };
    order.take(shown).map_values(|j: usize| seen[j as int])
}

/// Replies from `a` to `b`, added up.
pub open spec fn cell_sum(edges: Seq<Edge>, a: Seq<char>, b: Seq<char>) -> int
    decreases edges.len(),
{
    if edges.len() == 0 {
        0
    } else {
        cell_sum(edges.drop_last(), a, b) + if edges.last().from@ == a && edges.last().to@ == b {
            edges.last().count as int
        } else {
            0
        }
    }
}

proof fn lemma_volume_bound(eps: Seq<(Seq<char>, i64)>, key: Seq<char>)
    ensures
        -key_size(eps, key) <= volume(eps, key) <= key_size(eps, key),
        key_size(eps, key) >= 0,
    decreases eps.len(),
{
    if eps.len() > 0 {
        lemma_volume_bound(eps.drop_last(), key);
    }
}

proof fn lemma_unseen_has_no_volume(eps: Seq<(Seq<char>, i64)>, key: Seq<char>)
    requires
        !first_seen(eps).contains(key),
    ensures
        volume(eps, key) == 0,
    decreases eps.len(),
{
    if eps.len() > 0 {
        let p = first_seen(eps.drop_last());
        if p.contains(key) {
            let i = choose|i: int| 0 <= i < p.len() && p[i] == key;
            if p.contains(eps.last().0) {
                assert(first_seen(eps)[i] == key);
            } else {
                assert(first_seen(eps)[i] == key);
            }
        }
        if eps.last().0 == key {
            if !p.contains(key) {
                assert(first_seen(eps)[p.len() as int] == key);
            }
        }
        lemma_unseen_has_no_volume(eps.drop_last(), key);
    }
}

proof fn lemma_first_seen_distinct(eps: Seq<(Seq<char>, i64)>)
    ensures
        forall|i: int, j: int|
            0 <= i < j < first_seen(eps).len() ==> first_seen(eps)[i] != first_seen(eps)[j],
    decreases eps.len(),
{
    if eps.len() > 0 {
        lemma_first_seen_distinct(eps.drop_last());
        let p = first_seen(eps.drop_last());
        if !p.contains(eps.last().0) {
            assert forall|i: int, j: int|
                0 <= i < j < first_seen(eps).len() implies first_seen(eps)[i] != first_seen(eps)[j] by {
                if j == p.len() {
                    assert(first_seen(eps)[i] == p[i]);
                }
            }
        }
    }
}

proof fn lemma_endpoints_step(edges: Seq<Edge>, e: int)
    requires
        0 <= e < edges.len(),
    ensures
        endpoints(edges.take(e + 1)) == endpoints(edges.take(e)) + seq![
            (edges[e].from@, edges[e].count),
            (edges[e].to@, edges[e].count),
        ],
{
    assert(edges.take(e + 1).drop_last() =~= edges.take(e));
}

/// Fold one endpoint into the running list of keys and their volumes.
fn bump(
    order: &mut Vec<String>,
    vol: &mut Vec<i64>,
    key: &String,
    count: i64,
    Ghost(eps): Ghost<Seq<(Seq<char>, i64)>>,
)
    requires
        views(old(order)@) == first_seen(eps),
        old(vol).len() == old(order).len(),
        forall|q: int|
            0 <= q < old(vol).len() ==> #[trigger] old(vol)@[q] == volume(eps, old(order)@[q]@),
        key_size(eps.push((key@, count)), key@) <= i64::MAX,
    ensures
        views(final(order)@) == first_seen(eps.push((key@, count))),
        final(vol).len() == final(order).len(),
        forall|q: int|
            0 <= q < final(vol).len() ==> #[trigger] final(vol)@[q] == volume(
                eps.push((key@, count)),
                final(order)@[q]@,
            ),
{
    let ghost next = eps.push((key@, count));
    proof {
        assert(next.drop_last() =~= eps);
    }
    let mut q: usize = 0;
    while q < order.len()
        invariant
            next == eps.push((key@, count)),
            next.drop_last() == eps,
            next.last() == (key@, count),
            key_size(next, key@) <= i64::MAX,
            views(order@) == first_seen(eps),
            vol.len() == order.len(),
            forall|p: int| 0 <= p < vol.len() ==> #[trigger] vol@[p] == volume(eps, order@[p]@),
            q <= order.len(),
            forall|p: int| 0 <= p < q ==> order@[p]@ != key@,
        decreases order.len() - q,
    {
        if same_text(order[q].as_str(), key.as_str()) {
            let ghost seen = views(order@);
            proof {
                assert(seen[q as int] == key@);
                assert(first_seen(eps).contains(key@));
                assert(first_seen(next) == first_seen(eps));
                lemma_volume_bound(next, key@);
                assert(volume(next, key@) == volume(eps, key@) + count);
            }
            let v = vol[q] + count;
            vol.set(q, v);
            proof {
                assert forall|p: int| 0 <= p < vol.len() implies #[trigger] vol@[p] == volume(
                    next,
                    order@[p]@,
                ) by {
                    if p != q {
                        lemma_first_seen_distinct(eps);
                        assert(order@[p]@ == seen[p]);
                        assert(seen[p] != seen[q as int]);
                    }
                }
            }
            return;
        }
        q = q + 1;
    }
    proof {
        let seen = views(order@);
        assert(!first_seen(eps).contains(key@)) by {
            if first_seen(eps).contains(key@) {
                let i = choose|i: int| 0 <= i < seen.len() && seen[i] == key@;
                assert(order@[i]@ == key@);
            }
        }
        lemma_unseen_has_no_volume(eps, key@);
        assert(first_seen(next) == seen.push(key@));
    }
    let ghost before = order@;
    order.push(String::from_str(key.as_str()));
    vol.push(count);
    proof {
        assert(views(order@) =~= first_seen(next));
        assert forall|p: int| 0 <= p < vol.len() implies #[trigger] vol@[p] == volume(
            next,
            order@[p]@,
        ) by {
            if p < before.len() {
                assert(order@[p] == before[p]);
                assert(order@[p]@ != key@);
            }
        }
    }
}


/// The absolute size of one reply count.
pub open spec fn size(c: i64) -> int {
    if c < 0 { -c } else { c as int }
}

proof fn lemma_key_size_step(edges: Seq<Edge>, key: Seq<char>)
    requires
        edges.len() > 0,
    ensures
        key_size(endpoints(edges), key) == key_size(endpoints(edges.drop_last()), key) + (if edges.last().from@
            == key {
            size(edges.last().count)
        } else {
            0
        }) + (if edges.last().to@ == key {
            size(edges.last().count)
        } else {
            0
        }),
{
    let eps = endpoints(edges);
    assert(eps.drop_last().drop_last() =~= endpoints(edges.drop_last()));
    assert(eps.last() == (edges.last().to@, edges.last().count));
    assert(eps.drop_last().last() == (edges.last().from@, edges.last().count));
    assert(key_size(eps, key) == key_size(eps.drop_last(), key) + if eps.last().0 == key { size(eps.last().1) } else { 0 });
    assert(key_size(eps.drop_last(), key) == key_size(eps.drop_last().drop_last(), key) + if eps.drop_last().last().0
        == key {
        size(eps.drop_last().last().1)
    } else {
        0
    });
}

proof fn lemma_key_size_prefix(edges: Seq<Edge>, e: int, key: Seq<char>)
    requires
        0 <= e <= edges.len(),
    ensures
        0 <= key_size(endpoints(edges.take(e)), key) <= key_size(endpoints(edges), key),
    decreases edges.len(),
{
    if e == edges.len() {
        assert(edges.take(e) =~= edges);
        lemma_volume_bound(endpoints(edges), key);
    } else {
        lemma_key_size_step(edges, key);
        assert(edges.drop_last().take(e) =~= edges.take(e));
        lemma_key_size_prefix(edges.drop_last(), e, key);
    }
}

proof fn lemma_cell_bound(edges: Seq<Edge>, a: Seq<char>, b: Seq<char>)
    ensures
        -key_size(endpoints(edges), a) <= cell_sum(edges, a, b) <= key_size(endpoints(edges), a),
    decreases edges.len(),
{
    if edges.len() > 0 {
        lemma_cell_bound(edges.drop_last(), a, b);
        lemma_key_size_step(edges, a);
    }
}

/// Replies from `a` to `b`, added up.
fn cell(edges: &Vec<Edge>, a: &String, b: &String) -> (v: i64)
    requires
        totals_fit(edges@),
    ensures
        v == cell_sum(edges@, a@, b@),
{
    let mut sum: i64 = 0;
    let mut e: usize = 0;
    while e < edges.len()
        invariant
            totals_fit(edges@),
            e <= edges.len(),
            sum == cell_sum(edges@.take(e as int), a@, b@),
        decreases edges.len() - e,
    {
        proof {
            assert(edges@.take(e + 1).drop_last() =~= edges@.take(e as int));
            lemma_cell_bound(edges@.take(e + 1), a@, b@);
            lemma_key_size_prefix(edges@, e + 1, a@);
            assert(key_size(endpoints(edges@), a@) <= i64::MAX);
        }
        if same_text(edges[e].from.as_str(), a.as_str()) && same_text(edges[e].to.as_str(), b.as_str()) {
            sum = sum + edges[e].count;
        }
        e = e + 1;
    }
    proof {
        assert(edges@.take(edges.len() as int) =~= edges@);
    }
    sum
}

/// The busiest correspondents, and the replies between every pair of them.
///
/// Keys come back busiest first, at most sixteen; `cells[i][j]` is how often
/// `keys[i]` replied to `keys[j]`, the diagonal included.
pub fn answer_matrix(edges: &Vec<Edge>) -> (out: (Vec<String>, Vec<Vec<i64>>))
    requires
        totals_fit(edges@),
    ensures
        views(out.0@) == matrix_keys(edges@),
        out.1.len() == out.0.len(),
        forall|i: int| 0 <= i < out.1.len() ==> #[trigger] out.1@[i].len() == out.0.len(),
        forall|i: int, j: int|
            0 <= i < out.1.len() && 0 <= j < out.0.len() ==> #[trigger] out.1@[i]@[j] == cell_sum(
                edges@,
                out.0@[i]@,
                out.0@[j]@,
            ),
{
    let mut order: Vec<String> = Vec::new();
    let mut vol: Vec<i64> = Vec::new();
    let mut e: usize = 0;
    while e < edges.len()
        invariant
            totals_fit(edges@),
            e <= edges.len(),
            views(order@) == first_seen(endpoints(edges@.take(e as int))),
            vol.len() == order.len(),
            forall|q: int|
                0 <= q < vol.len() ==> #[trigger] vol@[q] == volume(
                    endpoints(edges@.take(e as int)),
                    order@[q]@,
                ),
        decreases edges.len() - e,
    {
        let ghost eps = endpoints(edges@.take(e as int));
        let ghost c = edges@[e as int].count;
        proof {
            lemma_endpoints_step(edges@, e as int);
            let from = edges@[e as int].from@;
            let to = edges@[e as int].to@;
            lemma_key_size_prefix(edges@, e + 1, from);
            lemma_key_size_prefix(edges@, e + 1, to);
            assert(key_size(endpoints(edges@), from) <= i64::MAX);
            assert(key_size(endpoints(edges@), to) <= i64::MAX);
            let two = endpoints(edges@.take(e + 1));
            assert(two.drop_last() =~= eps.push((from, c)));
            assert(two.drop_last().drop_last() =~= eps);
            assert(two =~= eps.push((from, c)).push((to, c)));
            lemma_volume_bound(eps, to);
            assert(key_size(eps.push((from, c)), from) <= key_size(two, from));
        }
        bump(&mut order, &mut vol, &edges[e].from, edges[e].count, Ghost(eps));
        bump(
            &mut order,
            &mut vol,
            &edges[e].to,
            edges[e].count,
            Ghost(eps.push((edges@[e as int].from@, c))),
        );
        e = e + 1;
    }
    proof {
        assert(edges@.take(edges.len() as int) =~= edges@);
    }
    let ghost eps = endpoints(edges@);
    let ghost seen = first_seen(eps);
    let mut names: Vec<Vec<char>> = Vec::new();
    while names.len() < order.len()
        invariant
            names.len() <= order.len(),
            forall|q: int| 0 <= q < names.len() ==> #[trigger] names@[q]@ == Seq::<char>::empty(),
        decreases order.len() - names.len(),
    {
        names.push(Vec::new());
    }
    proof {
        assert(char_views(names@) =~= no_names(seen.len()));
        assert(vol@ =~= volumes(eps, seen));
    }
    let r = rank(&vol, &names);
    proof {
        law_rank_lists_every_row_once(vol@, char_views(names@), vol.len() as nat);
    }
    let shown = if order.len() < MATRIX_PEOPLE { order.len() } else { MATRIX_PEOPLE };
    let ghost picked = r@.take(shown as int).map_values(|j: usize| seen[j as int]);
    let mut keys: Vec<String> = Vec::new();
    let mut m: usize = 0;
    while m < shown
        invariant
            shown <= order.len(),
            r.len() == order.len(),
            forall|q: int| 0 <= q < r.len() ==> #[trigger] r@[q] < order.len(),
            views(order@) == seen,
            picked == r@.take(shown as int).map_values(|j: usize| seen[j as int]),
            m <= shown,
            picked.len() == shown,
            keys.len() == m,
            views(keys@) == picked.take(m as int),
        decreases shown - m,
    {
        let at = r[m];
        let ghost before = keys@;
        keys.push(String::from_str(order[at].as_str()));
        proof {
            assert forall|q: int| 0 <= q < m + 1 implies #[trigger] views(keys@)[q]
                == picked.take(m + 1)[q] by {
                if q < m {
                    assert(keys@[q] == before[q]);
                    assert(views(before)[q] == picked.take(m as int)[q]);
                }
            }
            assert(views(order@)[at as int] == order@[at as int]@);
            assert(picked[m as int] == seen[r@[m as int] as int]);
            assert(views(keys@) =~= picked.take(m + 1));
        }
        m = m + 1;
    }
    proof {
        assert(picked.take(shown as int) =~= picked);
        assert(picked =~= matrix_keys(edges@));
    }
    let k = keys.len();
    let mut cells: Vec<Vec<i64>> = Vec::new();
    let mut i: usize = 0;
    while i < k
        invariant
            totals_fit(edges@),
            k == keys.len(),
            i <= k,
            cells.len() == i,
            forall|p: int| 0 <= p < i ==> #[trigger] cells@[p].len() == k,
            forall|p: int, j: int|
                0 <= p < i && 0 <= j < k ==> #[trigger] cells@[p]@[j] == cell_sum(
                    edges@,
                    keys@[p]@,
                    keys@[j]@,
                ),
        decreases k - i,
    {
        let mut row: Vec<i64> = Vec::new();
        let mut j: usize = 0;
        while j < k
            invariant
                totals_fit(edges@),
                k == keys.len(),
                i < k,
                j <= k,
                cells.len() == i,
                forall|p: int| 0 <= p < i ==> #[trigger] cells@[p].len() == k,
                forall|p: int, j: int|
                    0 <= p < i && 0 <= j < k ==> #[trigger] cells@[p]@[j] == cell_sum(
                        edges@,
                        keys@[p]@,
                        keys@[j]@,
                    ),
                row.len() == j,
                forall|q: int|
                    0 <= q < j ==> #[trigger] row@[q] == cell_sum(edges@, keys@[i as int]@, keys@[q]@),
            decreases k - j,
        {
            let v = cell(edges, &keys[i], &keys[j]);
            row.push(v);
            j = j + 1;
        }
        let ghost before = cells@;
        cells.push(row);
        proof {
            assert forall|p: int, j: int| 0 <= p < i + 1 && 0 <= j < k implies #[trigger] cells@[p]@[j]
                == cell_sum(edges@, keys@[p]@, keys@[j]@) by {
                if p < i {
                    assert(cells@[p] == before[p]);
                }
            }
        }
        i = i + 1;
    }
    (keys, cells)
}


/// The matrix under its heading, beside its legend and caption.
pub open spec fn matrix_frame_spec(grid: Seq<char>) -> Seq<char> {
    "<h3>Who answers whom</h3><div class=\"split\"><div>"@ + grid + "</div><aside>"@ + legend_spec(
        5,
        "never"@,
        "most often"@,
    )
        + "<p class=\"caption\">A row replies; a column is replied to. The diagonal is greyed out &#8212; everyone answers themselves, and counting it would make the loudest person their own closest correspondent.</p></aside></div>"@
}

/// The matrix (markup drawn elsewhere) under its heading, beside its legend
/// and caption.
pub fn matrix_frame(grid: &str) -> (out: String)
    ensures
        out@ == matrix_frame_spec(grid@),
{
    let mut out = String::from_str("<h3>Who answers whom</h3><div class=\"split\"><div>");
    out.append(grid);
    out.append("</div><aside>");
    let l = legend(5, "never", "most often");
    out.append(l.as_str());
    out.append(
        "<p class=\"caption\">A row replies; a column is replied to. The diagonal is greyed out &#8212; everyone answers themselves, and counting it would make the loudest person their own closest correspondent.</p></aside></div>",
    );
    out
}


/// The matrix has room for sixteen people at most, each once, busiest first;
/// and nobody left out took part in more replies than anybody shown.
pub proof fn law_matrix_keeps_the_busiest(edges: Seq<Edge>)
    requires
        totals_fit(edges),
        first_seen(endpoints(edges)).len() <= usize::MAX,
    ensures
        matrix_keys(edges).len() <= MATRIX_PEOPLE,
        forall|i: int, j: int|
            0 <= i < j < matrix_keys(edges).len() ==> matrix_keys(edges)[i] != matrix_keys(edges)[j],
        forall|i: int, j: int|
            #![trigger matrix_keys(edges)[i], matrix_keys(edges)[j]]
            0 <= i < j < matrix_keys(edges).len() ==> volume(endpoints(edges), matrix_keys(edges)[i])
                >= volume(endpoints(edges), matrix_keys(edges)[j]),
        forall|key: Seq<char>, i: int|
            #![trigger first_seen(endpoints(edges)).contains(key), matrix_keys(edges)[i]]
            first_seen(endpoints(edges)).contains(key) && !matrix_keys(edges).contains(key) && 0 <= i
                < matrix_keys(edges).len() ==> volume(endpoints(edges), key) <= volume(
                endpoints(edges),
                matrix_keys(edges)[i],
            ),
{
    let eps = endpoints(edges);
    let seen = first_seen(eps);
    let vols = volumes(eps, seen);
    let names = no_names(seen.len());
    let r = ranked(vols, names, seen.len());
    law_rank_lists_every_row_once(vols, names, seen.len());
    law_rank_misses_no_row(vols, names, seen.len());
    law_rank_is_ordered(vols, names, seen.len());
    lemma_first_seen_distinct(eps);
    let shown = if seen.len() < MATRIX_PEOPLE { seen.len() as int } else { MATRIX_PEOPLE as int };
    let keys = matrix_keys(edges);
    assert(keys == r.take(shown).map_values(|j: usize| seen[j as int]));
    assert forall|p: int| 0 <= p < seen.len() implies #[trigger] vols[p] as int == volume(eps, seen[p]) by {
        lemma_volume_bound(eps, seen[p]);
        assert(key_size(eps, seen[p]) <= i64::MAX);
    }
    assert forall|i: int, j: int| 0 <= i < j < keys.len() implies keys[i] != keys[j] by {
        assert(r[i] != r[j]);
        assert(keys[i] == seen[r[i] as int]);
        assert(keys[j] == seen[r[j] as int]);
    }
    assert forall|i: int, j: int| 0 <= i < j < keys.len() implies volume(eps, keys[i]) >= volume(eps, keys[j]) by {
        assert(!ranks_above(vols, names, r[j] as int, r[i] as int));
        assert(keys[i] == seen[r[i] as int]);
        assert(keys[j] == seen[r[j] as int]);
        assert(vols[r[i] as int] as int == volume(eps, seen[r[i] as int]));
        assert(vols[r[j] as int] as int == volume(eps, seen[r[j] as int]));
    }
    assert forall|key: Seq<char>, i: int|
        seen.contains(key) && !keys.contains(key) && 0 <= i < keys.len() implies volume(eps, key) <= volume(
        eps,
        keys[i],
    ) by {
        let p = choose|p: int| 0 <= p < seen.len() && seen[p] == key;
        assert(r.contains(p as usize));
        let q = choose|q: int| 0 <= q < r.len() && r[q] == p as usize;
        if q < shown {
            assert(keys[q] == seen[r[q] as int]);
            assert(keys[q] == key);
            assert(keys.contains(key));
        }
        assert(i < q);
        assert(!ranks_above(vols, names, r[q] as int, r[i] as int));
        assert(keys[i] == seen[r[i] as int]);
        assert(vols[r[i] as int] as int == volume(eps, seen[r[i] as int]));
        assert(vols[r[q] as int] as int == volume(eps, seen[r[q] as int]));
    }
}

} // verus!
