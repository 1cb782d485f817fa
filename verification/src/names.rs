//! Sets of names, kept in ascending order without repetition.
use vstd::prelude::*;

use crate::text::{less, less_asymmetric, less_irreflexive, less_total, less_transitive, str_eq, str_less};

verus! {

/// Each name comes before those that follow it.
pub open spec fn ascending(names: Seq<Seq<char>>) -> bool {
    forall|i: int, j: int|
        0 <= i < j < names.len() ==> less(#[trigger] names[i], #[trigger] names[j])
}

/// An ascending list holds each of its names once.
pub proof fn ascending_no_duplicates(names: Seq<Seq<char>>)
    requires
        ascending(names),
    ensures
        names.no_duplicates(),
{
    assert forall|i: int, j: int|
        0 <= i < names.len() && 0 <= j < names.len() && i != j implies names[i] != names[j] by {
        if i < j {
            less_asymmetric(names[i], names[j]);
        } else {
            less_asymmetric(names[j], names[i]);
        }
    }
}

/// Two ascending lists of the same names are the same list.
pub proof fn ascending_unique(a: Seq<Seq<char>>, b: Seq<Seq<char>>)
    requires
        ascending(a),
        ascending(b),
        forall|n: Seq<char>| a.contains(n) <==> b.contains(n),
    ensures
        a == b,
    decreases a.len(),
{
    if a.len() == 0 {
        if b.len() > 0 {
            assert(b.contains(b[0]));
        }
        assert(a =~= b);
    } else if b.len() == 0 {
        assert(a.contains(a[0]));
    } else {
        assert(b.contains(a[0]) && a.contains(b[0])) by {
            assert(a.contains(a[0]) && b.contains(b[0]));
        }
        let i = choose|i: int| 0 <= i < b.len() && b[i] == a[0];
        let j = choose|j: int| 0 <= j < a.len() && a[j] == b[0];
        if i > 0 && j > 0 {
            less_asymmetric(b[0], b[i]);
            less_asymmetric(a[0], a[j]);
        }
        assert(a[0] == b[0]);
        ascending_no_duplicates(a);
        ascending_no_duplicates(b);
        let ta = a.drop_first();
        let tb = b.drop_first();
        assert forall|n: Seq<char>| ta.contains(n) <==> tb.contains(n) by {
            if ta.contains(n) {
                let k = choose|k: int| 0 <= k < ta.len() && ta[k] == n;
                assert(a[k + 1] == n);
                assert(a.contains(n));
                let m = choose|m: int| 0 <= m < b.len() && b[m] == n;
                assert(m != 0);
                assert(tb[m - 1] == n);
            }
            if tb.contains(n) {
                let k = choose|k: int| 0 <= k < tb.len() && tb[k] == n;
                assert(b[k + 1] == n);
                assert(b.contains(n));
                let m = choose|m: int| 0 <= m < a.len() && a[m] == n;
                assert(m != 0);
                assert(ta[m - 1] == n);
            }
        }
        ascending_unique(ta, tb);
        assert(a =~= seq![a[0]] + ta);
        assert(b =~= seq![b[0]] + tb);
    }
}

/// A set of names.
#[derive(Debug, PartialEq, Eq)]
pub struct NameSet {
    names: Vec<String>,
}

impl View for NameSet {
    type V = Seq<Seq<char>>;

    /// The names, ascending.
    closed spec fn view(&self) -> Seq<Seq<char>> {
        self.names.deep_view()
    }
}

impl NameSet {
    #[verifier::type_invariant]
    spec fn in_order(self) -> bool {
        ascending(self.names.deep_view())
    }

    /// The empty set.
    pub fn new() -> (res: NameSet)
        ensures
            res@ == Seq::<Seq<char>>::empty(),
    {
        let res = NameSet { names: Vec::new() };
        assert(res@ =~= Seq::<Seq<char>>::empty());
        res
    }

    /// The first position whose name is not before `name`.
    fn position(&self, name: &str) -> (res: usize)
        ensures
            res <= self@.len(),
            forall|i: int| 0 <= i < res ==> less(#[trigger] self@[i], name@),
            forall|i: int| res <= i < self@.len() ==> !less(#[trigger] self@[i], name@),
    {
        proof {
            use_type_invariant(self);
        }
        let mut i: usize = 0;
        while i < self.names.len() && str_less(self.names[i].as_str(), name)
            invariant
                i <= self.names.len(),
                forall|k: int| 0 <= k < i ==> less(#[trigger] self@[k], name@),
            decreases self.names.len() - i,
        {
            i += 1;
        }
        assert forall|k: int| i <= k < self@.len() implies !less(#[trigger] self@[k], name@) by {
            if k > i && less(self@[k], name@) {
                assert(less(self@[i as int], self@[k]));
                less_transitive(self@[i as int], self@[k], name@);
            }
        }
        i
    }

    /// Whether `name` is in the set.
    pub fn contains(&self, name: &str) -> (res: bool)
        ensures
            res == self@.contains(name@),
    {
        let at = self.position(name);
        proof {
            use_type_invariant(self);
            less_irreflexive(name@);
        }
        let found = at < self.names.len() && str_eq(self.names[at].as_str(), name);
        proof {
            if self@.contains(name@) {
                let k = choose|k: int| 0 <= k < self@.len() && self@[k] == name@;
                if k > at {
                    assert(less(self@[at as int], self@[k]));
                }
                assert(k == at);
            } else if found {
                assert(self@[at as int] == name@);
            }
        }
        found
    }

    /// Adds `name` where it is not in the set yet.
    pub fn insert(&mut self, name: &str)
        ensures
            ascending(final(self)@),
            forall|n: Seq<char>| final(self)@.contains(n) <==> old(self)@.contains(n) || n == name@,
            final(self)@.len() == old(self)@.len() + (if old(self)@.contains(name@) {
                0int
            } else {
                1int
            }),
    {
        proof {
            use_type_invariant(&*self);
        }
        let at = self.position(name);
        if self.contains(name) {
            return;
        }
        let ghost before = self@;
        let mut names: Vec<String> = Vec::new();
        std::mem::swap(&mut names, &mut self.names);
        names.insert(at, name.to_string());
        proof {
            let after = names.deep_view();
            assert(after =~= before.insert(at as int, name@));
            assert forall|i: int, j: int| 0 <= i < j < after.len() implies less(
                #[trigger] after[i],
                #[trigger] after[j],
            ) by {
                let bi = if i < at {
                    i
                } else {
                    i - 1
                };
                let bj = if j < at {
                    j
                } else {
                    j - 1
                };
                if i == at {
                    less_total(before[bj], name@);
                    assert(!less(before[bj], name@));
                    assert(before[bj] != name@);
                } else if j != at {
                    assert(less(before[bi], before[bj]));
                } else {
                    assert(less(before[bi], name@));
                }
            }
            assert forall|n: Seq<char>| after.contains(n) <==> before.contains(n) || n == name@ by {
                if before.contains(n) {
                    let k = choose|k: int| 0 <= k < before.len() && before[k] == n;
                    if k < at {
                        assert(after[k] == n);
                    } else {
                        assert(after[k + 1] == n);
                    }
                }
                if n == name@ {
                    assert(after[at as int] == n);
                }
                if after.contains(n) {
                    let k = choose|k: int| 0 <= k < after.len() && after[k] == n;
                    if k < at {
                        assert(before[k] == n);
                    } else if k > at {
                        assert(before[k - 1] == n);
                    }
                }
            }
        }
        self.names = names;
    }

    /// How many names there are.
    pub fn len(&self) -> (res: usize)
        ensures
            res == self@.len(),
    {
        self.names.len()
    }

    /// The name at `i` of the ascending list.
    pub fn get(&self, i: usize) -> (res: &str)
        requires
            i < self@.len(),
        ensures
            res@ == self@[i as int],
    {
        self.names[i].as_str()
    }

    /// The names, ascending.
    pub fn names(&self) -> (res: Vec<&str>)
        ensures
            res.deep_view() == self@,
            ascending(self@),
    {
        proof {
            use_type_invariant(self);
        }
        let mut out: Vec<&str> = Vec::new();
        let mut i: usize = 0;
        while i < self.names.len()
            invariant
                i <= self.names.len(),
                out@.len() == i,
                forall|k: int| 0 <= k < i ==> (#[trigger] out@[k])@ == self@[k],
            decreases self.names.len() - i,
        {
            out.push(self.names[i].as_str());
            i += 1;
        }
        assert(out.deep_view() =~= self@);
        out
    }
}

impl Clone for NameSet {
    fn clone(&self) -> (res: NameSet)
        ensures
            res@ == self@,
    {
        proof {
            use_type_invariant(self);
        }
        let mut names: Vec<String> = Vec::new();
        let mut i: usize = 0;
        while i < self.names.len()
            invariant
                i <= self.names.len(),
                names@.len() == i,
                forall|k: int| 0 <= k < i ==> (#[trigger] names@[k])@ == self@[k],
            decreases self.names.len() - i,
        {
            names.push(self.names[i].clone());
            i += 1;
        }
        assert(names.deep_view() =~= self@);
        NameSet { names }
    }
}

} // verus!
