//! The set of paths that a run has found changed.

use vstd::prelude::*;
use crate::order::{ascending, lemma_precedes_total, lemma_precedes_transitive, precedes, rank, Rank};
use crate::text::{chars_of, string_of};

verus! {

/// A set of paths, kept in ascending order and so without repetition. Two
/// change sets with the same paths hold them in the same order.
#[derive(Debug)]
pub struct ChangeSet {
    paths: Vec<Vec<char>>,
}

impl View for ChangeSet {
    type V = Set<Seq<char>>;

    /// The paths as a set.
    open spec fn view(&self) -> Set<Seq<char>> {
        Set::new(|p: Seq<char>| self.seq().contains(p))
    }
}

impl ChangeSet {
    /// The paths in the order in which the set holds them.
    pub closed spec fn seq(&self) -> Seq<Seq<char>> {
        Seq::new(self.paths.len() as nat, |i: int| self.paths[i]@)
    }

    /// The paths stand in ascending order.
    pub open spec fn wf(&self) -> bool {
        ascending(self.seq())
    }

    #[verifier::type_invariant]
    spec fn inv(&self) -> bool {
        self.wf()
    }

    /// The empty set.
    pub fn new() -> (set: Self)
        ensures
            set.wf(),
            set.seq() == Seq::<Seq<char>>::empty(),
            set@ == Set::<Seq<char>>::empty(),
    {
        let set = ChangeSet { paths: Vec::new() };
        assert(set.seq() =~= Seq::<Seq<char>>::empty());
        assert(set@ =~= Set::<Seq<char>>::empty());
        set
    }

    /// How many paths the set holds.
    pub fn len(&self) -> (n: usize)
        ensures
            n == self.seq().len(),
            self.wf(),
    {
        proof {
            use_type_invariant(self);
        }
        self.paths.len()
    }

    /// The number of paths of the set that come before `path`, and whether
    /// the set holds `path`.
    fn position(&self, path: &Vec<char>) -> (found: (usize, bool))
        ensures
            self.wf(),
            found.0 <= self.seq().len(),
            forall|k: int| 0 <= k < found.0 ==> precedes(#[trigger] self.seq()[k], path@),
            forall|k: int|
                found.0 <= k < self.seq().len() ==> !precedes(#[trigger] self.seq()[k], path@),
            found.1 == self.seq().contains(path@),
            found.1 ==> found.0 < self.seq().len() && self.seq()[found.0 as int] == path@,
    {
        proof {
            use_type_invariant(self);
        }
        let ghost s = self.seq();
        let mut lo: usize = 0;
        let mut hi: usize = self.paths.len();
        while lo < hi
            invariant
                s == self.seq(),
                ascending(s),
                lo <= hi <= self.paths.len(),
                s.len() == self.paths.len(),
                forall|k: int| 0 <= k < lo ==> precedes(#[trigger] s[k], path@),
                forall|k: int| hi <= k < s.len() ==> !precedes(#[trigger] s[k], path@),
            decreases hi - lo,
        {
            let mid = lo + (hi - lo) / 2;
            assert(s[mid as int] == self.paths[mid as int]@);
            match rank(&self.paths[mid], path) {
                Rank::Before => {
                    assert forall|k: int| 0 <= k < mid + 1 implies precedes(
                        #[trigger] s[k],
                        path@,
                    ) by {
                        if k < mid {
                            lemma_precedes_transitive(s[k], s[mid as int], path@);
                        }
                    }
                    lo = mid + 1;
                },
                _ => {
                    assert forall|k: int| mid <= k < s.len() implies !precedes(
                        #[trigger] s[k],
                        path@,
                    ) by {
                        if k > mid && precedes(s[k], path@) {
                            lemma_precedes_transitive(s[mid as int], s[k], path@);
                        }
                    }
                    hi = mid;
                },
            }
        }
        let present = if lo < self.paths.len() {
            assert(s[lo as int] == self.paths[lo as int]@);
            match rank(&self.paths[lo], path) {
                Rank::Same => true,
                _ => false,
            }
        } else {
            false
        };
        proof {
            if !present && s.contains(path@) {
                let k = choose|k: int| 0 <= k < s.len() && s[k] == path@;
                crate::order::lemma_precedes_irreflexive(path@);
                assert(k >= lo) by {
                    if k < lo {
                        assert(precedes(s[k], path@));
                    }
                }
                if k > lo {
                    assert(precedes(s[lo as int], s[k]));
                }
            }
        }
        (lo, present)
    }

    /// Whether the set holds `path`.
    pub fn contains(&self, path: &str) -> (held: bool)
        ensures
            held == self@.contains(path@),
    {
        let chars = chars_of(path);
        let (_, present) = self.position(&chars);
        present
    }

    /// Adds `path` to the set; says whether the set did not hold it before.
    pub fn insert(&mut self, path: &str) -> (added: bool)
        ensures
            final(self).wf(),
            final(self)@ == old(self)@.insert(path@),
            added == !old(self)@.contains(path@),
    {
        let chars = chars_of(path);
        self.insert_chars(chars)
    }

    /// Adds the path `path`, given by its characters.
    pub fn insert_chars(&mut self, path: Vec<char>) -> (added: bool)
        ensures
            final(self).wf(),
            final(self)@ == old(self)@.insert(path@),
            added == !old(self)@.contains(path@),
    {
        let (at, present) = self.position(&path);
        if present {
            assert(self@ =~= self@.insert(path@));
            return false;
        }
        let ghost before = self.seq();
        let ghost p = path@;
        proof {
            assert forall|k: int| at <= k < before.len() implies precedes(
                p,
                #[trigger] before[k],
            ) by {
                assert(before.contains(before[k]));
                lemma_precedes_total(p, before[k]);
            }
        }
        let mut paths: Vec<Vec<char>> = Vec::new();
        core::mem::swap(&mut self.paths, &mut paths);
        paths.insert(at, path);
        proof {
            let after = Seq::new(paths.len() as nat, |i: int| paths[i]@);
            assert(after =~= before.insert(at as int, p));
            assert forall|i: int, j: int| 0 <= i < j < after.len() implies precedes(
                #[trigger] after[i],
                #[trigger] after[j],
            ) by {
                if j < at {
                    assert(precedes(before[i], before[j]));
                } else if j == at {
                    assert(precedes(before[i], p));
                } else if i < at {
                    assert(precedes(before[i], before[j - 1]));
                } else if i == at {
                    assert(precedes(p, before[j - 1]));
                } else {
                    assert(precedes(before[i - 1], before[j - 1]));
                }
            }
            assert forall|q: Seq<char>| after.contains(q) <==> (before.contains(q) || q == p) by {
                if after.contains(q) {
                    let k = choose|k: int| 0 <= k < after.len() && after[k] == q;
                    if k < at {
                        assert(before[k] == q);
                    } else if k > at {
                        assert(before[k - 1] == q);
                    }
                }
                if before.contains(q) {
                    let k = choose|k: int| 0 <= k < before.len() && before[k] == q;
                    if k < at {
                        assert(after[k] == q);
                    } else {
                        assert(after[k + 1] == q);
                    }
                }
                if q == p {
                    assert(after[at as int] == q);
                }
            }
        }
        core::mem::swap(&mut self.paths, &mut paths);
        assert(self@ =~= old(self)@.insert(p));
        true
    }

    /// Adds every path of `other`: afterwards the set is the union of both.
    pub fn extend(&mut self, other: &ChangeSet)
        ensures
            final(self).wf(),
            final(self)@ == old(self)@.union(other@),
    {
        proof {
            use_type_invariant(&*self);
        }
        let mut i: usize = 0;
        while i < other.paths.len()
            invariant
                i <= other.paths.len(),
                self.wf(),
                forall|q: Seq<char>|
                    self@.contains(q) <==> (old(self)@.contains(q) || exists|k: int|
                        0 <= k < i && #[trigger] other.seq()[k] == q),
            decreases other.paths.len() - i,
        {
            let path = other.paths[i].clone();
            assert(path@ == other.seq()[i as int]);
            let ghost prior = self@;
            self.insert_chars(path);
            proof {
                assert forall|q: Seq<char>|
                    self@.contains(q) <==> (old(self)@.contains(q) || exists|k: int|
                        0 <= k < i + 1 && #[trigger] other.seq()[k] == q) by {
                    if self@.contains(q) && !old(self)@.contains(q) {
                        if prior.contains(q) {
                            let k = choose|k: int| 0 <= k < i && #[trigger] other.seq()[k] == q;
                            assert(0 <= k < i + 1 && other.seq()[k] == q);
                        } else {
                            assert(other.seq()[i as int] == q);
                        }
                    }
                    if exists|k: int| 0 <= k < i + 1 && #[trigger] other.seq()[k] == q {
                        let k = choose|k: int| 0 <= k < i + 1 && #[trigger] other.seq()[k] == q;
                        if k < i {
                            assert(prior.contains(q));
                        }
                    }
                }
            }
            i += 1;
        }
        proof {
            assert forall|q: Seq<char>| self@.contains(q) <==> old(self)@.union(other@).contains(
                q,
            ) by {
                if other@.contains(q) {
                    let k = choose|k: int| 0 <= k < other.seq().len() && other.seq()[k] == q;
                    assert(0 <= k < i && other.seq()[k] == q);
                }
            }
            assert(self@ =~= old(self)@.union(other@));
        }
    }

    /// The `i`-th path in ascending order.
    pub fn get(&self, i: usize) -> (path: String)
        requires
            i < self.seq().len(),
        ensures
            path@ == self.seq()[i as int],
    {
        string_of(&self.paths[i], 0, self.paths[i].len())
    }

    /// All paths, in ascending order.
    pub fn paths(&self) -> (all: Vec<String>)
        ensures
            all.len() == self.seq().len(),
            forall|i: int| 0 <= i < all.len() ==> (#[trigger] all[i])@ == self.seq()[i],
    {
        let mut all: Vec<String> = Vec::new();
        let mut i: usize = 0;
        while i < self.paths.len()
            invariant
                i <= self.paths.len(),
                all.len() == i,
                forall|k: int| 0 <= k < i ==> (#[trigger] all[k])@ == self.seq()[k],
            decreases self.paths.len() - i,
        {
            let path = self.get(i);
            all.push(path);
            i += 1;
        }
        all
    }
}

/// Change sets with the same paths hold them in the same order.
pub proof fn lemma_change_set_canonical(a: ChangeSet, b: ChangeSet)
    requires
        a.wf(),
        b.wf(),
        a@ == b@,
    ensures
        a.seq() == b.seq(),
{
    assert forall|p: Seq<char>| a.seq().contains(p) <==> b.seq().contains(p) by {
        assert(a@.contains(p) <==> a.seq().contains(p));
        assert(b@.contains(p) <==> b.seq().contains(p));
    }
    crate::order::lemma_ascending_unique(a.seq(), b.seq());
}

} // verus!
