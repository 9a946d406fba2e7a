//! A set of ids, kept in order for fast lookup.

use vstd::prelude::*;

use crate::text::{lemma_lex_total, lemma_lex_transitive, lex_before, str_before, str_eq, views};

verus! {

/// A set of texts. Its view is the set of their characters' sequences.
pub struct IdSet {
    ids: Vec<String>,
}

/// The texts ascend strictly.
pub open spec fn ascending(ids: Seq<Seq<char>>) -> bool {
    forall|i: int, j: int|
        0 <= i < j < ids.len() ==> lex_before(#[trigger] ids[i], #[trigger] ids[j])
}

/// Texts that ascend are distinct.
pub proof fn lemma_ascending_distinct(ids: Seq<Seq<char>>)
    requires
        ascending(ids),
    ensures
        ids.no_duplicates(),
{
    assert forall|i: int, j: int| 0 <= i < ids.len() && 0 <= j < ids.len() && i != j implies ids[i]
        != ids[j] by {
        if i < j {
            assert(lex_before(ids[i], ids[j]));
            lemma_lex_total(ids[i], ids[j]);
        } else {
            assert(lex_before(ids[j], ids[i]));
            lemma_lex_total(ids[j], ids[i]);
        }
    }
}

impl View for IdSet {
    type V = Set<Seq<char>>;

    closed spec fn view(&self) -> Set<Seq<char>> {
        views(self.ids@).to_set()
    }
}

impl IdSet {
    #[verifier::type_invariant]
    spec fn inv(self) -> bool {
        ascending(views(self.ids@))
    }

    /// The empty set.
    pub fn new() -> (s: Self)
        ensures
            s@ == Set::<Seq<char>>::empty(),
    {
        let s: IdSet = IdSet { ids: Vec::new() };
        assert(views(s.ids@) == Seq::<Seq<char>>::empty());
        assert(s@ =~= Set::<Seq<char>>::empty());
        s
    }

    /// How many ids the set has.
    pub fn len(&self) -> (n: usize)
        ensures
            n == self@.len(),
            self@.finite(),
    {
        proof {
            use_type_invariant(self);
            lemma_ascending_distinct(views(self.ids@));
            views(self.ids@).unique_seq_to_set();
            vstd::seq_lib::seq_to_set_is_finite(views(self.ids@));
        }
        self.ids.len()
    }

    /// Where `id` stands, or where it would have to stand.
    fn place(&self, id: &str) -> (r: (bool, usize))
        ensures
            r.1 <= self.ids@.len(),
            r.0 ==> r.1 < self.ids@.len() && self.ids@[r.1 as int]@ == id@,
            !r.0 ==> !self@.contains(id@),
            !r.0 ==> forall|i: int|
                0 <= i < r.1 ==> lex_before((#[trigger] self.ids@[i])@, id@),
            !r.0 ==> forall|i: int|
                r.1 <= i < self.ids@.len() ==> lex_before(id@, (#[trigger] self.ids@[i])@),
    {
        proof {
            use_type_invariant(self);
        }
        let ghost all = views(self.ids@);
        let mut lo: usize = 0;
        let mut hi: usize = self.ids.len();
        while lo < hi
            invariant
                lo <= hi <= self.ids@.len(),
                all == views(self.ids@),
                ascending(all),
                forall|i: int| 0 <= i < lo ==> lex_before((#[trigger] self.ids@[i])@, id@),
                forall|i: int|
                    hi <= i < self.ids@.len() ==> lex_before(id@, (#[trigger] self.ids@[i])@),
            decreases hi - lo,
        {
            let mid: usize = lo + (hi - lo) / 2;
            if str_eq(self.ids[mid].as_str(), id) {
                return (true, mid);
            }
            assert(all[mid as int] == self.ids@[mid as int]@);
            if str_before(self.ids[mid].as_str(), id) {
                proof {
                    assert forall|i: int| 0 <= i < mid + 1 implies lex_before(
                        (#[trigger] self.ids@[i])@,
                        id@,
                    ) by {
                        if i < mid {
                            assert(all[i] == self.ids@[i]@);
                            assert(lex_before(all[i], all[mid as int]));
                            lemma_lex_transitive(all[i], all[mid as int], id@);
                        }
                    }
                }
                lo = mid + 1;
            } else {
                proof {
                    lemma_lex_total(all[mid as int], id@);
                    assert forall|i: int| mid <= i < self.ids@.len() implies lex_before(
                        id@,
                        (#[trigger] self.ids@[i])@,
                    ) by {
                        if i > mid {
                            assert(all[i] == self.ids@[i]@);
                            assert(lex_before(all[mid as int], all[i]));
                            lemma_lex_transitive(id@, all[mid as int], all[i]);
                        }
                    }
                }
                hi = mid;
            }
        }
        proof {
            if self@.contains(id@) {
                let i = choose|i: int| 0 <= i < all.len() && all[i] == id@;
                assert(all[i] == self.ids@[i]@);
                lemma_lex_total(id@, id@);
            }
        }
        (false, lo)
    }

    /// Whether the set has `id`.
    pub fn contains(&self, id: &str) -> (r: bool)
        ensures
            r == self@.contains(id@),
    {
        let (found, at) = self.place(id);
        proof {
            if found {
                assert(views(self.ids@)[at as int] == id@);
            }
        }
        found
    }

    /// Adds `id`. Returns whether it is new.
    pub fn insert(&mut self, id: &str) -> (fresh: bool)
        ensures
            fresh == !old(self)@.contains(id@),
            final(self)@ == old(self)@.insert(id@),
    {
        proof {
            use_type_invariant(&*self);
        }
        let (found, at) = self.place(id);
        let ghost before = views(self.ids@);
        if found {
            assert(before[at as int] == id@);
            assert(self@.insert(id@) =~= self@);
            return false;
        }
        let mut next: Vec<String> = Vec::new();
        std::mem::swap(&mut next, &mut self.ids);
        let copy: String = id.to_owned();
        let ghost prev = next@;
        next.insert(at, copy);
        proof {
            let after = views(next@);
            assert(next@ == prev.insert(at as int, copy));
            assert(after == before.insert(at as int, id@));
            assert forall|i: int, j: int| 0 <= i < j < after.len() implies lex_before(
                #[trigger] after[i],
                #[trigger] after[j],
            ) by {
                let pi = if i < at { i } else { i - 1 };
                let pj = if j < at { j } else { j - 1 };
                if i != at {
                    assert(after[i] == before[pi]);
                    assert(before[pi] == prev[pi]@);
                }
                if j != at {
                    assert(after[j] == before[pj]);
                    assert(before[pj] == prev[pj]@);
                }
            }
            assert(after.to_set() =~= before.to_set().insert(id@)) by {
                assert forall|x: Seq<char>| after.to_set().contains(x) == before.to_set().insert(
                    id@,
                ).contains(x) by {
                    if after.contains(x) {
                        let i = choose|i: int| 0 <= i < after.len() && after[i] == x;
                        if i != at {
                            let p = if i < at { i } else { i - 1 };
                            assert(before[p] == x);
                        }
                    }
                    if before.contains(x) {
                        let i = choose|i: int| 0 <= i < before.len() && before[i] == x;
                        let p = if i < at { i } else { i + 1 };
                        assert(after[p] == x);
                    }
                    assert(after[at as int] == id@);
                }
            }
        }
        self.ids = next;
        true
    }
}

/// An id is new exactly once: after it was put in, the set has it, has every id that it
/// had, and no other.
pub proof fn law_ids_are_new_once(
    before: IdSet,
    after: IdSet,
    id: &str,
    fresh: bool,
    other: &str,
    had: bool,
    has: bool,
)
    requires
        exists|m: &mut IdSet|
            *m == before && *final(m) == after && #[trigger] call_ensures(
                IdSet::insert,
                (m, id),
                fresh,
            ),
        call_ensures(IdSet::contains, (&before, other), had),
        call_ensures(IdSet::contains, (&after, other), has),
    ensures
        other@ == id@ ==> has && fresh == !had,
        other@ != id@ ==> has == had,
{
}


} // verus!
