//! A table of values under text keys.

use vstd::prelude::*;

use crate::text::{str_eq, views};

verus! {

/// Values under text keys, each key once.
pub struct Table<V> {
    rows: Vec<(String, V)>,
}

/// The value of the first row with a key.
spec fn find<V>(rows: Seq<(String, V)>, key: Seq<char>) -> Option<V>
    decreases rows.len(),
{
    if rows.len() == 0 {
        None
    } else if rows[0].0@ == key {
        Some(rows[0].1)
    } else {
        find(rows.skip(1), key)
    }
}

/// No two rows have the same key.
spec fn keys_differ<V>(rows: Seq<(String, V)>) -> bool {
    forall|i: int, j: int| 0 <= i < j < rows.len() ==> (#[trigger] rows[i]).0@ != (#[trigger] rows[j]).0@
}

/// A row is found under its key, where keys differ.
proof fn lemma_find_at<V>(rows: Seq<(String, V)>, i: int)
    requires
        keys_differ(rows),
        0 <= i < rows.len(),
    ensures
        find(rows, rows[i].0@) == Some(rows[i].1),
    decreases rows.len(),
{
    if i > 0 {
        assert(rows[0].0@ != rows[i].0@);
        let rest = rows.skip(1);
        assert forall|a: int, b: int| 0 <= a < b < rest.len() implies (#[trigger] rest[a]).0@ != (
        #[trigger] rest[b]).0@ by {
            assert(rest[a] == rows[a + 1] && rest[b] == rows[b + 1]);
        }
        assert(rest[i - 1] == rows[i]);
        lemma_find_at(rest, i - 1);
    }
}

/// What is found stands in a row with the key.
proof fn lemma_found<V>(rows: Seq<(String, V)>, key: Seq<char>)
    ensures
        find(rows, key) is Some <==> exists|i: int|
            0 <= i < rows.len() && (#[trigger] rows[i]).0@ == key,
        find(rows, key) is Some ==> exists|i: int|
            0 <= i < rows.len() && (#[trigger] rows[i]).0@ == key && rows[i].1 == find(rows, key)->0,
    decreases rows.len(),
{
    if rows.len() > 0 {
        let rest = rows.skip(1);
        lemma_found(rest, key);
        if rows[0].0@ != key {
            if find(rest, key) is Some {
                let i = choose|i: int|
                    0 <= i < rest.len() && (#[trigger] rest[i]).0@ == key && rest[i].1 == find(
                        rest,
                        key,
                    )->0;
                assert(rows[i + 1] == rest[i]);
            }
            if exists|i: int| 0 <= i < rows.len() && (#[trigger] rows[i]).0@ == key {
                let i = choose|i: int| 0 <= i < rows.len() && (#[trigger] rows[i]).0@ == key;
                assert(rest[i - 1] == rows[i]);
            }
        } else {
            assert(rows[0].0@ == key);
        }
    }
}

impl<V> Table<V> {
    #[verifier::type_invariant]
    spec fn inv(self) -> bool {
        keys_differ(self.rows@)
    }

    /// The value under a key.
    pub closed spec fn at(self, key: Seq<char>) -> Option<V> {
        find(self.rows@, key)
    }

    /// The keys.
    pub open spec fn spec_keys(self) -> Set<Seq<char>> {
        Set::new(|k: Seq<char>| self.at(k) is Some)
    }

    /// How many keys there are.
    pub open spec fn spec_len(self) -> nat {
        self.spec_keys().len()
    }

    /// There are finitely many keys, as many as rows.
    proof fn lemma_counted(self)
        requires
            keys_differ(self.rows@),
        ensures
            self.spec_keys().finite(),
            self.spec_len() == self.rows@.len(),
    {
        let keys = self.rows@.map_values(|r: (String, V)| r.0@);
        assert forall|a: int, b: int| 0 <= a < keys.len() && 0 <= b < keys.len() && a
            != b implies keys[a] != keys[b] by {
            if a < b {
                assert(self.rows@[a].0@ != self.rows@[b].0@);
            } else {
                assert(self.rows@[b].0@ != self.rows@[a].0@);
            }
        }
        keys.unique_seq_to_set();
        vstd::seq_lib::seq_to_set_is_finite(keys);
        assert forall|k: Seq<char>| keys.to_set().contains(k) == self.spec_keys().contains(k) by {
            lemma_found(self.rows@, k);
            if keys.contains(k) {
                let j = choose|j: int| 0 <= j < keys.len() && keys[j] == k;
                assert(self.rows@[j].0@ == k);
            }
            if self.at(k) is Some {
                let j = choose|j: int|
                    0 <= j < self.rows@.len() && (#[trigger] self.rows@[j]).0@ == k;
                assert(keys[j] == k);
            }
        }
        assert(keys.to_set() =~= self.spec_keys());
    }

    /// An empty table.
    pub fn new() -> (t: Self)
        ensures
            forall|k: Seq<char>| (#[trigger] t.at(k)) is None,
            t.spec_len() == 0,
    {
        let t: Table<V> = Table { rows: Vec::new() };
        proof {
            t.lemma_counted();
        }
        t
    }

    /// How many keys there are.
    pub fn len(&self) -> (n: usize)
        ensures
            n == self.spec_len(),
    {
        proof {
            use_type_invariant(self);
            self.lemma_counted();
        }
        self.rows.len()
    }

    /// The row of a key.
    fn position(&self, key: &str) -> (r: Option<usize>)
        ensures
            match r {
                Some(i) => i < self.rows@.len() && self.rows@[i as int].0@ == key@ && self.at(key@)
                    == Some(self.rows@[i as int].1),
                None => self.at(key@) is None && forall|i: int|
                    0 <= i < self.rows@.len() ==> (#[trigger] self.rows@[i]).0@ != key@,
            },
    {
        proof {
            use_type_invariant(self);
            lemma_found(self.rows@, key@);
        }
        let mut i: usize = 0;
        while i < self.rows.len()
            invariant
                i <= self.rows@.len(),
                keys_differ(self.rows@),
                forall|j: int| 0 <= j < i ==> (#[trigger] self.rows@[j]).0@ != key@,
            decreases self.rows@.len() - i,
        {
            if str_eq(self.rows[i].0.as_str(), key) {
                proof {
                    lemma_find_at(self.rows@, i as int);
                }
                return Some(i);
            }
            i = i + 1;
        }
        None
    }

    /// The value under a key.
    pub fn get(&self, key: &str) -> (r: Option<&V>)
        ensures
            match r {
                Some(v) => self.at(key@) == Some(*v),
                None => self.at(key@) is None,
            },
    {
        match self.position(key) {
            Some(i) => Some(&self.rows[i].1),
            None => None,
        }
    }

    /// Takes out the value under a key.
    pub fn remove(&mut self, key: &str) -> (r: Option<V>)
        ensures
            r == old(self).at(key@),
            forall|k: Seq<char>| #[trigger]
                final(self).at(k) == if k == key@ {
                    None
                } else {
                    old(self).at(k)
                },
            old(self).spec_len() == final(self).spec_len() + if old(self).at(key@) is Some {
                1nat
            } else {
                0nat
            },
    {
        proof {
            use_type_invariant(&*self);
            self.lemma_counted();
        }
        match self.position(key) {
            Some(i) => {
                let ghost before = self.rows@;
                let mut rows: Vec<(String, V)> = Vec::new();
                std::mem::swap(&mut rows, &mut self.rows);
                let row: (String, V) = rows.remove(i);
                let ghost after = rows@;
                proof {
                    assert(after == before.remove(i as int));
                    lemma_removed(before, i as int);
                    assert forall|k: Seq<char>| #[trigger] find(after, k) == if k == key@ {
                        None
                    } else {
                        find(before, k)
                    } by {
                        lemma_find_removed(before, i as int, k);
                    }
                }
                self.rows = rows;
                proof {
                    self.lemma_counted();
                }
                Some(row.1)
            },
            None => None,
        }
    }

    /// Puts a value under a key, in place of the one that was there.
    pub fn insert(&mut self, key: &str, v: V)
        ensures
            forall|k: Seq<char>| #[trigger]
                final(self).at(k) == if k == key@ {
                    Some(v)
                } else {
                    old(self).at(k)
                },
            final(self).spec_len() == if old(self).at(key@) is Some {
                old(self).spec_len()
            } else {
                old(self).spec_len() + 1
            },
    {
        proof {
            use_type_invariant(&*self);
            self.lemma_counted();
        }
        let _ = self.remove(key);
        let ghost mid = *self;
        proof {
            use_type_invariant(&*self);
            self.lemma_counted();
            lemma_found(self.rows@, key@);
            assert(self.at(key@) is None);
        }
        let ghost before = self.rows@;
        let mut rows: Vec<(String, V)> = Vec::new();
        std::mem::swap(&mut rows, &mut self.rows);
        let name: String = key.to_owned();
        rows.push((name, v));
        proof {
            let after = rows@;
            assert(after == before.push((name, v)));
            assert forall|i: int, j: int| 0 <= i < j < after.len() implies (#[trigger] after[i]).0@
                != (#[trigger] after[j]).0@ by {
                assert(after[i] == before[i]);
                if j < before.len() {
                    assert(after[j] == before[j]);
                } else {
                    assert(before[i].0@ != key@);
                }
            }
            assert forall|k: Seq<char>| #[trigger] find(after, k) == if k == key@ {
                Some(v)
            } else {
                find(before, k)
            } by {
                lemma_found(before, k);
                lemma_found(after, k);
                if k == key@ {
                    lemma_find_at(after, before.len() as int);
                } else if find(before, k) is Some {
                    let i = choose|i: int|
                        0 <= i < before.len() && (#[trigger] before[i]).0@ == k && before[i].1
                            == find(before, k)->0;
                    assert(after[i] == before[i]);
                    lemma_find_at(after, i);
                } else if find(after, k) is Some {
                    let i = choose|i: int| 0 <= i < after.len() && (#[trigger] after[i]).0@ == k;
                    assert(after[i] == before[i]);
                }
            }
        }
        self.rows = rows;
        assert forall|k: Seq<char>| #[trigger] self.at(k) == if k == key@ {
            Some(v)
        } else {
            old(self).at(k)
        } by {
            assert(mid.at(k) == find(before, k));
            assert(self.at(k) == find(rows@, k));
        }
        proof {
            self.lemma_counted();
        }
    }

    /// The keys, each once.
    pub fn keys(&self) -> (r: Vec<String>)
        ensures
            r@.len() == self.spec_len(),
            views(r@).no_duplicates(),
            forall|k: Seq<char>| #[trigger] views(r@).contains(k) <==> self.at(k) is Some,
    {
        proof {
            use_type_invariant(self);
            self.lemma_counted();
        }
        let mut out: Vec<String> = Vec::new();
        let mut i: usize = 0;
        while i < self.rows.len()
            invariant
                i <= self.rows@.len(),
                out@.len() == i,
                forall|j: int| 0 <= j < i ==> (#[trigger] views(out@)[j]) == self.rows@[j].0@,
            decreases self.rows@.len() - i,
        {
            let ghost before = out@;
            out.push(self.rows[i].0.as_str().to_owned());
            proof {
                assert(views(out@) == views(before).push(self.rows@[i as int].0@));
            }
            i = i + 1;
        }
        proof {
            let all = views(out@);
            assert forall|a: int, b: int| 0 <= a < all.len() && 0 <= b < all.len() && a
                != b implies all[a] != all[b] by {
                if a < b {
                    assert(self.rows@[a].0@ != self.rows@[b].0@);
                } else {
                    assert(self.rows@[b].0@ != self.rows@[a].0@);
                }
            }
            assert forall|k: Seq<char>| #[trigger] all.contains(k) <==> self.at(k) is Some by {
                lemma_found(self.rows@, k);
                if all.contains(k) {
                    let j = choose|j: int| 0 <= j < all.len() && all[j] == k;
                    assert(self.rows@[j].0@ == k);
                }
                if self.at(k) is Some {
                    let j = choose|j: int|
                        0 <= j < self.rows@.len() && (#[trigger] self.rows@[j]).0@ == k;
                    assert(all[j] == k);
                }
            }
        }
        out
    }
}

/// Keys still differ when a row is taken out.
proof fn lemma_removed<V>(rows: Seq<(String, V)>, i: int)
    requires
        keys_differ(rows),
        0 <= i < rows.len(),
    ensures
        keys_differ(rows.remove(i)),
{
    let after = rows.remove(i);
    assert forall|a: int, b: int| 0 <= a < b < after.len() implies (#[trigger] after[a]).0@ != (
    #[trigger] after[b]).0@ by {
        let pa = if a < i { a } else { a + 1 };
        let pb = if b < i { b } else { b + 1 };
        assert(after[a] == rows[pa] && after[b] == rows[pb]);
    }
}

/// What is found when a row is taken out.
proof fn lemma_find_removed<V>(rows: Seq<(String, V)>, i: int, k: Seq<char>)
    requires
        keys_differ(rows),
        0 <= i < rows.len(),
    ensures
        find(rows.remove(i), k) == if k == rows[i].0@ {
            None
        } else {
            find(rows, k)
        },
{
    let after = rows.remove(i);
    lemma_removed(rows, i);
    lemma_found(rows, k);
    lemma_found(after, k);
    if find(after, k) is Some {
        let a = choose|a: int| 0 <= a < after.len() && (#[trigger] after[a]).0@ == k;
        let p = if a < i { a } else { a + 1 };
        assert(after[a] == rows[p]);
        lemma_find_at(after, a);
        lemma_find_at(rows, p);
        if k == rows[i].0@ {
            assert(rows[p].0@ != rows[i].0@);
        }
    } else if k != rows[i].0@ && find(rows, k) is Some {
        let p = choose|p: int| 0 <= p < rows.len() && (#[trigger] rows[p]).0@ == k;
        let a = if p < i { p } else { p - 1 };
        assert(after[a] == rows[p]);
    }
}

/// What was put under a key is what the table gives for it, until it is taken out; the
/// other keys keep theirs.
pub proof fn law_tables_give_what_was_put<V>(
    before: Table<V>,
    put: Table<V>,
    cut: Table<V>,
    key: &str,
    v: V,
    out: Option<V>,
    other: Seq<char>,
)
    requires
        exists|m: &mut Table<V>|
            *m == before && *final(m) == put && #[trigger] call_ensures(
                Table::<V>::insert,
                (m, key, v),
                (),
            ),
        exists|m: &mut Table<V>|
            *m == put && *final(m) == cut && #[trigger] call_ensures(
                Table::<V>::remove,
                (m, key),
                out,
            ),
    ensures
        put.at(key@) == Some(v),
        out == Some(v),
        cut.at(key@) is None,
        other != key@ ==> put.at(other) == before.at(other) && cut.at(other) == before.at(other),
{
}


} // verus!
