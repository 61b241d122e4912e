//! Peer key -> display name, for the charts and lines that label by key.

use vstd::prelude::*;

verus! {

/// Peer key -> display name.
///
/// Each key appears at most once; filing a key again replaces its name.
pub struct Names {
    entries: Vec<(String, String)>,
}

/// The name filed under `key`, the last one written winning.
pub open spec fn name_lookup(entries: Seq<(Seq<char>, Seq<char>)>, key: Seq<char>) -> Option<Seq<char>>
    decreases entries.len(),
{
    if entries.len() == 0 {
        None
    } else if entries.last().0 == key {
        Some(entries.last().1)
    } else {
        name_lookup(entries.drop_last(), key)
    }
}

impl Names {
    /// Each key at most once.
    pub closed spec fn wf(&self) -> bool {
        self.pairs().map_values(|p: (Seq<char>, Seq<char>)| p.0).no_duplicates()
    }

    /// `(key, name)` pairs in the order the keys were first filed.
    pub closed spec fn pairs(&self) -> Seq<(Seq<char>, Seq<char>)> {
        self.entries@.map_values(|p: (String, String)| (p.0@, p.1@))
    }

    /// The name filed under `key`.
    pub open spec fn get_spec(&self, key: Seq<char>) -> Option<Seq<char>> {
        name_lookup(self.pairs(), key)
    }

    /// Every name, in the order the keys were first filed.
    pub open spec fn names(&self) -> Seq<Seq<char>> {
        self.pairs().map_values(|p: (Seq<char>, Seq<char>)| p.1)
    }

    pub fn new() -> (n: Self)
        ensures
            n.wf(),
            n.pairs().len() == 0,
            forall|k: Seq<char>| n.get_spec(k) is None,
    {
        let n = Names { entries: Vec::new() };
        proof {
            assert(n.pairs() =~= Seq::<(Seq<char>, Seq<char>)>::empty());
        }
        n
    }

    /// How many keys have a name.
    pub fn len(&self) -> (n: usize)
        ensures
            n == self.pairs().len(),
    {
        self.entries.len()
    }

    fn find(&self, key: &str) -> (at: Option<usize>)
        ensures
            match at {
                Some(i) => i < self.pairs().len() && self.pairs()[i as int].0 == key@ && forall|j: int|
                    i < j < self.pairs().len() ==> self.pairs()[j].0 != key@,
                None => forall|j: int| 0 <= j < self.pairs().len() ==> self.pairs()[j].0 != key@,
            },
    {
        let mut i = self.entries.len();
        while i > 0
            invariant
                i <= self.entries.len(),
                forall|j: int| i <= j < self.entries.len() ==> self.pairs()[j].0 != key@,
            decreases i,
        {
            if crate::text::same_text(self.entries[i - 1].0.as_str(), key) {
                return Some(i - 1);
            }
            i = i - 1;
        }
        None
    }

    /// The name filed under `key`, if any.
    pub fn get(&self, key: &str) -> (out: Option<&String>)
        ensures
            match out {
                Some(name) => self.get_spec(key@) == Some(name@),
                None => self.get_spec(key@) is None,
            },
    {
        let at = self.find(key);
        proof {
            lemma_name_lookup_from_end(self.pairs(), key@, at);
        }
        match at {
            Some(i) => Some(&self.entries[i].1),
            None => None,
        }
    }

    /// Every name, in the order the keys were first filed.
    pub fn values(&self) -> (out: Vec<String>)
        ensures
            out@.map_values(|s: String| s@) == self.names(),
    {
        let mut out: Vec<String> = Vec::new();
        let mut i: usize = 0;
        proof {
            assert(self.pairs().len() == self.entries@.len());
            assert(out@.map_values(|s: String| s@) =~= self.names().take(0));
        }
        while i < self.entries.len()
            invariant
                i <= self.entries.len(),
                out.len() == i,
                self.names().len() == self.entries.len(),
                out@.map_values(|s: String| s@) == self.names().take(i as int),
            decreases self.entries.len() - i,
        {
            let name = self.entries[i].1.clone();
            proof {
                assert(self.pairs()[i as int] == (self.entries@[i as int].0@, self.entries@[i as int].1@));
                assert(self.names()[i as int] == name@);
            }
            let ghost prev = out@;
            out.push(name);
            proof {
                let m = out@.map_values(|s: String| s@);
                assert(self.pairs().len() == self.entries@.len());
                assert(self.names().len() == self.entries@.len());
                let want = self.names().take(i + 1);
                assert(m.len() == want.len());
                assert forall|j: int| 0 <= j < m.len() implies m[j] == want[j] by {
                    if j < i {
                        assert(out@[j] == prev[j]);
                        assert(prev.map_values(|s: String| s@)[j] == self.names().take(i as int)[j]);
                    }
                }
                assert(m =~= want);
            }
            i = i + 1;
        }
        proof {
            assert(self.names().take(self.entries.len() as int) =~= self.names());
        }
        out
    }

    /// Files `name` under `key`, replacing what was there.
    pub fn insert(&mut self, key: String, name: String)
        requires
            old(self).wf(),
        ensures
            final(self).wf(),
            forall|k: Seq<char>| #[trigger] final(self).get_spec(k) == if k == key@ {
                Some(name@)
            } else {
                old(self).get_spec(k)
            },
    {
        let at = self.find(key.as_str());
        let ghost before = self.pairs();
        let ghost kv = key@;
        let ghost nv = name@;
        match at {
            Some(i) => {
                self.entries.set(i, (key, name));
                proof {
                    let after = self.pairs();
                    assert(after =~= before.update(i as int, (kv, nv)));
                    assert(after.map_values(|p: (Seq<char>, Seq<char>)| p.0) =~= before.map_values(
                        |p: (Seq<char>, Seq<char>)| p.0,
                    ));
                    assert forall|k: Seq<char>| #[trigger] name_lookup(after, k) == if k == kv {
                        Some(nv)
                    } else {
                        name_lookup(before, k)
                    } by {
                        lemma_name_lookup_update(before, after, i as int, kv, nv, k);
                    }
                }
            },
            None => {
                self.entries.push((key, name));
                proof {
                    let after = self.pairs();
                    assert(after =~= before.push((kv, nv)));
                    assert(after.drop_last() =~= before);
                    let keys = after.map_values(|p: (Seq<char>, Seq<char>)| p.0);
                    assert forall|a: int, b: int| 0 <= a < b < keys.len() implies keys[a] != keys[b] by {
                        if b == before.len() {
                            assert(before[a].0 != kv);
                        } else {
                            assert(before.map_values(|p: (Seq<char>, Seq<char>)| p.0)[a] != before.map_values(
                                |p: (Seq<char>, Seq<char>)| p.0,
                            )[b]);
                        }
                    }
                }
            },
        }
    }
}

proof fn lemma_name_lookup_from_end(entries: Seq<(Seq<char>, Seq<char>)>, key: Seq<char>, at: Option<usize>)
    requires
        match at {
            Some(i) => i < entries.len() && entries[i as int].0 == key && forall|j: int|
                i < j < entries.len() ==> entries[j].0 != key,
            None => forall|j: int| 0 <= j < entries.len() ==> entries[j].0 != key,
        },
    ensures
        name_lookup(entries, key) == match at {
            Some(i) => Some(entries[i as int].1),
            None => None::<Seq<char>>,
        },
    decreases entries.len(),
{
    if entries.len() > 0 {
        match at {
            Some(i) => {
                if i as int != entries.len() - 1 {
                    lemma_name_lookup_from_end(entries.drop_last(), key, at);
                }
            },
            None => {
                lemma_name_lookup_from_end(entries.drop_last(), key, at);
            },
        }
    }
}

proof fn lemma_name_lookup_update(
    before: Seq<(Seq<char>, Seq<char>)>,
    after: Seq<(Seq<char>, Seq<char>)>,
    i: int,
    kv: Seq<char>,
    nv: Seq<char>,
    k: Seq<char>,
)
    requires
        0 <= i < before.len(),
        before[i].0 == kv,
        after == before.update(i, (kv, nv)),
        before.map_values(|p: (Seq<char>, Seq<char>)| p.0).no_duplicates(),
    ensures
        name_lookup(after, k) == if k == kv {
            Some(nv)
        } else {
            name_lookup(before, k)
        },
    decreases before.len(),
{
    let last = before.len() - 1;
    if i < last {
        let keys = before.map_values(|p: (Seq<char>, Seq<char>)| p.0);
        assert(keys[i] != keys[last]);
        assert(before.drop_last().map_values(|p: (Seq<char>, Seq<char>)| p.0) =~= keys.drop_last());
        assert(after.drop_last() =~= before.drop_last().update(i, (kv, nv)));
        lemma_name_lookup_update(before.drop_last(), after.drop_last(), i, kv, nv, k);
    } else {
        assert(after.drop_last() =~= before.drop_last());
    }
}


/// The name the last pair with this key gives it: a later pair overrides an
/// earlier one, as collecting pairs into a map does.
pub open spec fn last_name(pairs: Seq<(String, String)>, key: Seq<char>) -> Option<Seq<char>>
    decreases pairs.len(),
{
    if pairs.len() == 0 {
        None
    } else if pairs.last().0@ == key {
        Some(pairs.last().1@)
    } else {
        last_name(pairs.drop_last(), key)
    }
}

/// Peer key to display name, from `(key, name)` pairs: every person row of
/// the statistics carries one, so the charts that label by key can name
/// anyone who can reach them.
pub fn names_from(pairs: &Vec<(String, String)>) -> (n: Names)
    ensures
        n.wf(),
        forall|k: Seq<char>| #[trigger] n.get_spec(k) == last_name(pairs@, k),
{
    let mut n = Names::new();
    let mut i: usize = 0;
    while i < pairs.len()
        invariant
            i <= pairs.len(),
            n.wf(),
            forall|k: Seq<char>| #[trigger] n.get_spec(k) == last_name(pairs@.take(i as int), k),
        decreases pairs.len() - i,
    {
        let key = String::from_str(pairs[i].0.as_str());
        let name = String::from_str(pairs[i].1.as_str());
        n.insert(key, name);
        proof {
            assert(pairs@.take(i + 1).drop_last() =~= pairs@.take(i as int));
            assert(pairs@.take(i + 1).last() == pairs@[i as int]);
        }
        i = i + 1;
    }
    proof {
        assert(pairs@.take(pairs.len() as int) =~= pairs@);
    }
    n
}

} // verus!
