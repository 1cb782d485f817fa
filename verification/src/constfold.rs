//! Folding of condition trees, and the order in which auto-configurations apply.
//!
//! [`fold`] collapses the constant parts of a condition tree by the usual
//! short-circuits of boolean algebra, and [`emit`] prints a tree as a constant
//! `::leaf_core::CondExpr` expression. [`plan_order`] turns the declared
//! before/after edges of a set of auto-configurations into one total order that
//! depends on the edges and the names alone.
use vstd::prelude::*;

use crate::names::{ascending, ascending_no_duplicates, NameSet};
use crate::reading::{encloses, list_is_enclosed, within, within_brackets};
use crate::syntax::{literal_source, string_literal};
use crate::text::{
    bool_source, bool_text, contains_text, join, join_texts, less, less_asymmetric, str_eq,
};

verus! {

/// A tree of conditions.
#[derive(Debug)]
pub enum CondTree {
    /// A condition that is decided later: the source of its id and of its attributes.
    Leaf { id: String, attrs: String },
    /// Conjunction.
    All(Vec<CondTree>),
    /// Disjunction.
    Any(Vec<CondTree>),
    /// Negation.
    Not(Box<CondTree>),
    /// A constant.
    Const(bool),
}

/// The mathematical tree that a [`CondTree`] stands for.
pub ghost enum Cond {
    Leaf { id: Seq<char>, attrs: Seq<char> },
    All(Seq<Cond>),
    Any(Seq<Cond>),
    Not(Box<Cond>),
    Const(bool),
}

/// The tree that `t` stands for.
pub open spec fn cond_of(t: CondTree) -> Cond
    decreases t,
{
    match t {
        CondTree::Leaf { id, attrs } => Cond::Leaf { id: id@, attrs: attrs@ },
        CondTree::All(children) => Cond::All(
            Seq::new(
                children@.len(),
                |i: int|
                    if 0 <= i < children@.len() {
                        cond_of(children@[i])
                    } else {
                        arbitrary()
                    },
            ),
        ),
        CondTree::Any(children) => Cond::Any(
            Seq::new(
                children@.len(),
                |i: int|
                    if 0 <= i < children@.len() {
                        cond_of(children@[i])
                    } else {
                        arbitrary()
                    },
            ),
        ),
        CondTree::Not(inner) => Cond::Not(Box::new(cond_of(*inner))),
        CondTree::Const(b) => Cond::Const(b),
    }
}

impl View for CondTree {
    type V = Cond;

    open spec fn view(&self) -> Cond {
        cond_of(*self)
    }
}

/// What is left of folded children: those that are not constants.
pub open spec fn survivors(children: Seq<Cond>) -> Seq<Cond> {
    children.filter(|c: Cond| !(c is Const))
}

/// Folded children under a combinator whose neutral element is `identity`: the
/// opposite constant decides the whole, neutral children are dropped, and what is
/// left is combined only where there are two or more of it.
pub open spec fn combined(children: Seq<Cond>, identity: bool) -> Cond {
    let left = survivors(children);
    if children.contains(Cond::Const(!identity)) {
        Cond::Const(!identity)
    } else if left.len() == 0 {
        Cond::Const(identity)
    } else if left.len() == 1 {
        left[0]
    } else if identity {
        Cond::All(left)
    } else {
        Cond::Any(left)
    }
}

/// `c` with its constant parts collapsed.
pub open spec fn folded(c: Cond) -> Cond
    decreases c,
{
    match c {
        Cond::Leaf { .. } => c,
        Cond::Const(_) => c,
        Cond::Not(inner) => match folded(*inner) {
            Cond::Const(b) => Cond::Const(!b),
            other => Cond::Not(Box::new(other)),
        },
        Cond::All(children) => combined(folded_all(children), true),
        Cond::Any(children) => combined(folded_all(children), false),
    }
}

/// Each of `children` folded.
pub open spec fn folded_all(children: Seq<Cond>) -> Seq<Cond>
    decreases children,
{
    Seq::new(
        children.len(),
        |i: int|
            if 0 <= i < children.len() {
                folded(children[i])
            } else {
                arbitrary()
            },
    )
}

/// The truth of `c` where `truth` says which leaves hold.
pub open spec fn holds(c: Cond, truth: spec_fn(Seq<char>, Seq<char>) -> bool) -> bool
    decreases c,
{
    match c {
        Cond::Leaf { id, attrs } => truth(id, attrs),
        Cond::Const(b) => b,
        Cond::Not(inner) => !holds(*inner, truth),
        Cond::All(children) => forall|i: int|
            0 <= i < children.len() ==> holds(#[trigger] children[i], truth),
        Cond::Any(children) => exists|i: int|
            0 <= i < children.len() && holds(#[trigger] children[i], truth),
    }
}

/// A tree with nothing left to fold: it is a constant, or it holds no constant and
/// every combinator in it has two children or more.
pub open spec fn minimal(c: Cond) -> bool {
    c is Const || constant_free(c)
}

/// No constant, and no combinator with fewer than two children, anywhere in `c`.
pub open spec fn constant_free(c: Cond) -> bool
    decreases c,
{
    match c {
        Cond::Leaf { .. } => true,
        Cond::Const(_) => false,
        Cond::Not(inner) => constant_free(*inner),
        Cond::All(children) => children.len() >= 2 && forall|i: int|
            0 <= i < children.len() ==> constant_free(#[trigger] children[i]),
        Cond::Any(children) => children.len() >= 2 && forall|i: int|
            0 <= i < children.len() ==> constant_free(#[trigger] children[i]),
    }
}

/// What `survivors` keeps is what is not a constant.
proof fn survivors_members(children: Seq<Cond>)
    ensures
        forall|i: int|
            0 <= i < survivors(children).len() ==> !(#[trigger] survivors(children)[i] is Const)
                && children.contains(survivors(children)[i]),
        forall|i: int|
            0 <= i < children.len() && !(children[i] is Const) ==> survivors(children).contains(
                #[trigger] children[i],
            ),
    decreases children.len(),
{
    reveal(Seq::filter);
    let left = survivors(children);
    if children.len() > 0 {
        let shorter = children.drop_last();
        survivors_members(shorter);
        assert(forall|i: int| 0 <= i < shorter.len() ==> shorter[i] == children[i]);
        assert forall|i: int| 0 <= i < left.len() implies !(#[trigger] left[i] is Const)
            && children.contains(left[i]) by {
            if i < survivors(shorter).len() {
                assert(left[i] == survivors(shorter)[i]);
                let k = choose|k: int| 0 <= k < shorter.len() && shorter[k] == left[i];
                assert(children[k] == left[i]);
            } else {
                assert(children[children.len() - 1] == left[i]);
            }
        }
        assert forall|i: int| 0 <= i < children.len() && !(children[i] is Const) implies left.contains(
            #[trigger] children[i],
        ) by {
            if i < shorter.len() {
                assert(survivors(shorter).contains(shorter[i]));
                let k = choose|k: int|
                    0 <= k < survivors(shorter).len() && survivors(shorter)[k] == shorter[i];
                assert(left[k] == children[i]);
            } else {
                assert(left[left.len() - 1] == children[i]);
            }
        }
    }
}

/// A conjunction holds where each of its children does.
proof fn all_holds(children: Seq<Cond>, truth: spec_fn(Seq<char>, Seq<char>) -> bool)
    ensures
        holds(Cond::All(children), truth) == (forall|i: int|
            0 <= i < children.len() ==> holds(#[trigger] children[i], truth)),
{
    let all = Cond::All(children);
    assert(all->All_0 == children);
    if holds(all, truth) {
        assert forall|i: int| 0 <= i < children.len() implies holds(#[trigger] children[i], truth) by {
            assert(all->All_0[i] == children[i]);
        }
    }
}

/// A disjunction holds where one of its children does.
proof fn any_holds(children: Seq<Cond>, truth: spec_fn(Seq<char>, Seq<char>) -> bool)
    ensures
        holds(Cond::Any(children), truth) == (exists|i: int|
            0 <= i < children.len() && holds(#[trigger] children[i], truth)),
{
    let any = Cond::Any(children);
    assert(any->Any_0 == children);
    if exists|i: int| 0 <= i < children.len() && holds(#[trigger] children[i], truth) {
        let i = choose|i: int| 0 <= i < children.len() && holds(#[trigger] children[i], truth);
        assert(holds(any->Any_0[i], truth));
    }
}

/// Combining folded children keeps their meaning under the combinator.
proof fn combined_keeps_meaning(
    children: Seq<Cond>,
    identity: bool,
    truth: spec_fn(Seq<char>, Seq<char>) -> bool,
)
    ensures
        holds(combined(children, identity), truth) == (if identity {
            holds(Cond::All(children), truth)
        } else {
            holds(Cond::Any(children), truth)
        }),
{
    let left = survivors(children);
    all_holds(children, truth);
    any_holds(children, truth);
    all_holds(left, truth);
    any_holds(left, truth);
    survivors_members(children);
    if children.contains(Cond::Const(!identity)) {
        let k = choose|k: int| 0 <= k < children.len() && children[k] == Cond::Const(!identity);
        assert(holds(children[k], truth) == !identity);
    } else {
        assert forall|i: int| 0 <= i < children.len() && children[i] is Const implies holds(
            #[trigger] children[i],
            truth,
        ) == identity by {
            if children[i] == Cond::Const(!identity) {
                assert(children.contains(children[i]));
            }
        }
        assert forall|i: int| 0 <= i < children.len() && holds(
            #[trigger] children[i],
            truth,
        ) != identity implies exists|k: int|
            0 <= k < left.len() && holds(#[trigger] left[k], truth) != identity by {
            assert(left.contains(children[i]));
            let k = choose|k: int| 0 <= k < left.len() && left[k] == children[i];
            assert(holds(left[k], truth) != identity);
        }
        assert forall|k: int| 0 <= k < left.len() && holds(
            #[trigger] left[k],
            truth,
        ) != identity implies exists|i: int|
            0 <= i < children.len() && holds(#[trigger] children[i], truth) != identity by {
            let i = choose|i: int| 0 <= i < children.len() && children[i] == left[k];
            assert(holds(children[i], truth) != identity);
        }
        if left.len() == 1 {
            assert(holds(left[0], truth) == identity || holds(left[0], truth) != identity);
        }
    }
}

/// Folding keeps the meaning of a tree: whichever leaves hold, the folded tree is
/// true exactly where the tree is.
pub proof fn fold_keeps_meaning(c: Cond, truth: spec_fn(Seq<char>, Seq<char>) -> bool)
    ensures
        holds(folded(c), truth) == holds(c, truth),
    decreases c,
{
    match c {
        Cond::Not(inner) => {
            fold_keeps_meaning(*inner, truth);
        },
        Cond::All(children) => {
            let each = folded_all(children);
            assert forall|i: int| 0 <= i < children.len() implies holds(
                #[trigger] each[i],
                truth,
            ) == holds(children[i], truth) by {
                fold_keeps_meaning(children[i], truth);
            }
            combined_keeps_meaning(each, true, truth);
            all_holds(each, truth);
            all_holds(children, truth);
            assert forall|i: int| 0 <= i < children.len() implies holds(
                #[trigger] children[i],
                truth,
            ) == holds(each[i], truth) by {}
        },
        Cond::Any(children) => {
            let each = folded_all(children);
            assert forall|i: int| 0 <= i < children.len() implies holds(
                #[trigger] each[i],
                truth,
            ) == holds(children[i], truth) by {
                fold_keeps_meaning(children[i], truth);
            }
            combined_keeps_meaning(each, false, truth);
            any_holds(each, truth);
            any_holds(children, truth);
            assert forall|i: int| 0 <= i < children.len() implies holds(
                #[trigger] children[i],
                truth,
            ) == holds(each[i], truth) by {}
        },
        _ => {},
    }
}

/// A folded tree has nothing left to fold.
pub proof fn fold_is_minimal(c: Cond)
    ensures
        minimal(folded(c)),
    decreases c,
{
    match c {
        Cond::Not(inner) => {
            fold_is_minimal(*inner);
        },
        Cond::All(children) => {
            let each = folded_all(children);
            assert forall|i: int| 0 <= i < children.len() implies minimal(#[trigger] each[i]) by {
                fold_is_minimal(children[i]);
            }
            survivors_members(each);
            assert forall|i: int| 0 <= i < survivors(each).len() implies constant_free(
                #[trigger] survivors(each)[i],
            ) by {
                let k = choose|k: int| 0 <= k < each.len() && each[k] == survivors(each)[i];
                assert(minimal(each[k]));
            }
        },
        Cond::Any(children) => {
            let each = folded_all(children);
            assert forall|i: int| 0 <= i < children.len() implies minimal(#[trigger] each[i]) by {
                fold_is_minimal(children[i]);
            }
            survivors_members(each);
            assert forall|i: int| 0 <= i < survivors(each).len() implies constant_free(
                #[trigger] survivors(each)[i],
            ) by {
                let k = choose|k: int| 0 <= k < each.len() && each[k] == survivors(each)[i];
                assert(minimal(each[k]));
            }
        },
        _ => {},
    }
}

/// Nothing is dropped from children that are not constants.
proof fn survivors_all(children: Seq<Cond>)
    requires
        forall|i: int| 0 <= i < children.len() ==> !(#[trigger] children[i] is Const),
    ensures
        survivors(children) == children,
    decreases children.len(),
{
    reveal(Seq::filter);
    if children.len() > 0 {
        survivors_all(children.drop_last());
        assert(children.drop_last().push(children.last()) =~= children);
    }
}

/// A tree with nothing left to fold is folded to itself.
proof fn minimal_is_fixed(c: Cond)
    requires
        minimal(c),
    ensures
        folded(c) == c,
    decreases c,
{
    reveal_with_fuel(constant_free, 2);
    match c {
        Cond::Not(inner) => {
            minimal_is_fixed(*inner);
        },
        Cond::All(children) => {
            assert forall|i: int| 0 <= i < children.len() implies folded_all(children)[i]
                == #[trigger] children[i] by {
                minimal_is_fixed(children[i]);
            }
            assert(folded_all(children) =~= children);
            survivors_all(children);
        },
        Cond::Any(children) => {
            assert forall|i: int| 0 <= i < children.len() implies folded_all(children)[i]
                == #[trigger] children[i] by {
                minimal_is_fixed(children[i]);
            }
            assert(folded_all(children) =~= children);
            survivors_all(children);
        },
        _ => {},
    }
}

/// Folding twice is folding once.
pub proof fn fold_is_idempotent(c: Cond)
    ensures
        folded(folded(c)) == folded(c),
{
    fold_is_minimal(c);
    minimal_is_fixed(folded(c));
}

/// One of the leaves of `c` is the one with the given id and attributes.
pub open spec fn has_leaf(c: Cond, id: Seq<char>, attrs: Seq<char>) -> bool
    decreases c,
{
    match c {
        Cond::Leaf { id: own_id, attrs: own_attrs } => own_id == id && own_attrs == attrs,
        Cond::Const(_) => false,
        Cond::Not(inner) => has_leaf(*inner, id, attrs),
        Cond::All(children) => one_has_leaf(children, id, attrs),
        Cond::Any(children) => one_has_leaf(children, id, attrs),
    }
}

/// The leaf with the given id and attributes is one of those of `children`.
pub open spec fn one_has_leaf(children: Seq<Cond>, id: Seq<char>, attrs: Seq<char>) -> bool
    decreases children,
{
    exists|i: int| 0 <= i < children.len() && has_leaf(#[trigger] children[i], id, attrs)
}

/// Combining folded children adds no leaf.
proof fn combined_invents_nothing(
    children: Seq<Cond>,
    identity: bool,
    id: Seq<char>,
    attrs: Seq<char>,
)
    requires
        has_leaf(combined(children, identity), id, attrs),
    ensures
        one_has_leaf(children, id, attrs),
{
    reveal_with_fuel(has_leaf, 2);
    reveal_with_fuel(one_has_leaf, 2);
    let left = survivors(children);
    survivors_members(children);
    if !children.contains(Cond::Const(!identity)) && left.len() > 0 {
        let i: int = if left.len() == 1 {
            0
        } else {
            choose|i: int| 0 <= i < left.len() && has_leaf(#[trigger] left[i], id, attrs)
        };
        assert(has_leaf(left[i], id, attrs));
        let k = choose|k: int| 0 <= k < children.len() && children[k] == left[i];
        assert(has_leaf(children[k], id, attrs));
    }
}

/// Folding invents no leaf: what a folded tree asks, the tree asks.
pub proof fn fold_invents_nothing(c: Cond, id: Seq<char>, attrs: Seq<char>)
    requires
        has_leaf(folded(c), id, attrs),
    ensures
        has_leaf(c, id, attrs),
    decreases c,
{
    reveal_with_fuel(has_leaf, 2);
    reveal_with_fuel(one_has_leaf, 2);
    match c {
        Cond::Not(inner) => {
            fold_invents_nothing(*inner, id, attrs);
        },
        Cond::All(children) => {
            combined_invents_nothing(folded_all(children), true, id, attrs);
            let k = choose|k: int|
                0 <= k < children.len() && has_leaf(
                    #[trigger] folded_all(children)[k],
                    id,
                    attrs,
                );
            fold_invents_nothing(children[k], id, attrs);
            assert(has_leaf(children[k], id, attrs));
        },
        Cond::Any(children) => {
            combined_invents_nothing(folded_all(children), false, id, attrs);
            let k = choose|k: int|
                0 <= k < children.len() && has_leaf(
                    #[trigger] folded_all(children)[k],
                    id,
                    attrs,
                );
            fold_invents_nothing(children[k], id, attrs);
            assert(has_leaf(children[k], id, attrs));
        },
        _ => {},
    }
}

impl CondTree {
    /// Whether this is a constant.
    pub fn is_const(&self) -> (res: bool)
        ensures
            res == (self@ is Const),
    {
        matches!(self, CondTree::Const(_))
    }

    /// The value of a constant.
    pub fn as_const(&self) -> (res: Option<bool>)
        ensures
            res == (match self@ {
                Cond::Const(b) => Some(b),
                _ => None,
            }),
    {
        match self {
            CondTree::Const(b) => Some(*b),
            _ => None,
        }
    }
}

impl Clone for CondTree {
    fn clone(&self) -> (res: CondTree)
        ensures
            res@ == self@,
    {
        copy_of(self)
    }
}

/// A tree that stands for the same as `tree`.
fn copy_of(tree: &CondTree) -> (res: CondTree)
    ensures
        res@ == tree@,
    decreases tree,
{
    match tree {
        CondTree::Leaf { id, attrs } => CondTree::Leaf { id: id.clone(), attrs: attrs.clone() },
        CondTree::Const(b) => CondTree::Const(*b),
        CondTree::Not(inner) => CondTree::Not(Box::new(copy_of(inner))),
        CondTree::All(children) => {
            let mut copies: Vec<CondTree> = Vec::new();
            let mut i: usize = 0;
            while i < children.len()
                invariant
                    tree == CondTree::All(*children),
                    i <= children.len(),
                    copies@.len() == i,
                    forall|k: int| 0 <= k < i ==> (#[trigger] copies@[k])@ == children@[k]@,
                decreases children.len() - i,
            {
                assert(decreases_to!(tree => tree->All_0));
                copies.push(copy_of(&children[i]));
                i += 1;
            }
            let res = CondTree::All(copies);
            assert(res@->All_0 =~= tree@->All_0);
            res
        },
        CondTree::Any(children) => {
            let mut copies: Vec<CondTree> = Vec::new();
            let mut i: usize = 0;
            while i < children.len()
                invariant
                    tree == CondTree::Any(*children),
                    i <= children.len(),
                    copies@.len() == i,
                    forall|k: int| 0 <= k < i ==> (#[trigger] copies@[k])@ == children@[k]@,
                decreases children.len() - i,
            {
                assert(decreases_to!(tree => tree->Any_0));
                copies.push(copy_of(&children[i]));
                i += 1;
            }
            let res = CondTree::Any(copies);
            assert(res@->Any_0 =~= tree@->Any_0);
            res
        },
    }
}

/// The children of a combinator, each as the tree it stands for.
spec fn conds_of(children: Seq<CondTree>) -> Seq<Cond> {
    Seq::new(children.len(), |i: int| cond_of(children[i]))
}

/// Collapses the constant parts of `tree`.
pub fn fold(tree: &CondTree) -> (res: CondTree)
    ensures
        res@ == folded(tree@),
    decreases tree,
{
    match tree {
        CondTree::Leaf { id, attrs } => CondTree::Leaf { id: id.clone(), attrs: attrs.clone() },
        CondTree::Const(b) => CondTree::Const(*b),
        CondTree::Not(inner) => {
            let folded = fold(inner);
            match folded.as_const() {
                Some(b) => CondTree::Const(!b),
                None => CondTree::Not(Box::new(folded)),
            }
        },
        CondTree::All(children) => {
            let ghost each = folded_all(tree@->All_0);
            let mut left: Vec<CondTree> = Vec::new();
            let mut i: usize = 0;
            proof {
                reveal(Seq::filter);
                assert(conds_of(left@) =~= survivors(each.take(0)));
            }
            while i < children.len()
                invariant
                    tree == CondTree::All(*children),
                    each == folded_all(tree@->All_0),
                    each.len() == children@.len(),
                    i <= children.len(),
                    conds_of(left@) == survivors(each.take(i as int)),
                    !each.take(i as int).contains(Cond::Const(false)),
                decreases children.len() - i,
            {
                let folded = fold(&children[i]);
                proof {
                    assert(folded@ == each[i as int]);
                    take_one_more(each, i as int);
                }
                match folded.as_const() {
                    Some(true) => {},
                    Some(false) => {
                        assert(each.contains(each[i as int]));
                        return CondTree::Const(false);
                    },
                    None => {
                        let ghost before = left@;
                        left.push(folded);
                        assert(conds_of(left@) =~= conds_of(before).push(folded@));
                    },
                }
                i += 1;
            }
            assert(each.take(i as int) =~= each);
            collapse(left, true)
        },
        CondTree::Any(children) => {
            let ghost each = folded_all(tree@->Any_0);
            let mut left: Vec<CondTree> = Vec::new();
            let mut i: usize = 0;
            proof {
                reveal(Seq::filter);
                assert(conds_of(left@) =~= survivors(each.take(0)));
            }
            while i < children.len()
                invariant
                    tree == CondTree::Any(*children),
                    each == folded_all(tree@->Any_0),
                    each.len() == children@.len(),
                    i <= children.len(),
                    conds_of(left@) == survivors(each.take(i as int)),
                    !each.take(i as int).contains(Cond::Const(true)),
                decreases children.len() - i,
            {
                let folded = fold(&children[i]);
                proof {
                    assert(folded@ == each[i as int]);
                    take_one_more(each, i as int);
                }
                match folded.as_const() {
                    Some(false) => {},
                    Some(true) => {
                        assert(each.contains(each[i as int]));
                        return CondTree::Const(true);
                    },
                    None => {
                        let ghost before = left@;
                        left.push(folded);
                        assert(conds_of(left@) =~= conds_of(before).push(folded@));
                    },
                }
                i += 1;
            }
            assert(each.take(i as int) =~= each);
            collapse(left, false)
        },
    }
}

/// How one more child changes what survives.
proof fn take_one_more(each: Seq<Cond>, i: int)
    requires
        0 <= i < each.len(),
    ensures
        survivors(each.take(i + 1)) == (if each[i] is Const {
            survivors(each.take(i))
        } else {
            survivors(each.take(i)).push(each[i])
        }),
        forall|c: Cond|
            each.take(i + 1).contains(c) ==> each.take(i).contains(c) || c == each[i],
{
    reveal(Seq::filter);
    assert(each.take(i + 1).drop_last() =~= each.take(i));
    assert forall|c: Cond| each.take(i + 1).contains(c) implies each.take(i).contains(c) || c
        == each[i] by {
        let longer = each.take(i + 1);
        let k = choose|k: int| 0 <= k < longer.len() && longer[k] == c;
        if k < i {
            assert(each.take(i)[k] == c);
        }
    }
}

/// What is left of the children of a combinator whose neutral element is `identity`.
fn collapse(left: Vec<CondTree>, identity: bool) -> (res: CondTree)
    ensures
        res@ == (if left@.len() == 0 {
            Cond::Const(identity)
        } else if left@.len() == 1 {
            left@[0]@
        } else if identity {
            Cond::All(conds_of(left@))
        } else {
            Cond::Any(conds_of(left@))
        }),
{
    let mut left = left;
    if left.len() == 0 {
        CondTree::Const(identity)
    } else if left.len() == 1 {
        left.swap_remove(0)
    } else if identity {
        let res = CondTree::All(left);
        assert(res@->All_0 =~= conds_of(left@));
        res
    } else {
        let res = CondTree::Any(left);
        assert(res@->Any_0 =~= conds_of(left@));
        res
    }
}

/// The source of `c` as a constant `::leaf_core::CondExpr` expression.
pub open spec fn emitted(c: Cond) -> Seq<char>
    decreases c,
{
    match c {
        Cond::Const(b) => "::leaf_core::CondExpr::Const("@ + bool_source(b) + ")"@,
        Cond::Leaf { id, attrs } => "::leaf_core::CondExpr::Leaf("@ + id + ", "@ + attrs + ")"@,
        Cond::Not(inner) => "::leaf_core::CondExpr::Not(&"@ + emitted(*inner) + ")"@,
        Cond::All(children) => "::leaf_core::CondExpr::All(&["@ + join(
            emitted_all(children),
            ", "@,
        ) + "])"@,
        Cond::Any(children) => "::leaf_core::CondExpr::Any(&["@ + join(
            emitted_all(children),
            ", "@,
        ) + "])"@,
    }
}

/// The source of each of `children`.
pub open spec fn emitted_all(children: Seq<Cond>) -> Seq<Seq<char>>
    decreases children,
{
    Seq::new(
        children.len(),
        |i: int|
            if 0 <= i < children.len() {
                emitted(children[i])
            } else {
                arbitrary()
            },
    )
}

/// `s` is the source of a tree: a conjunction lists the sources of its children, in their order, and
/// so does a disjunction; a negation holds the source of what it denies; a leaf holds its id and its
/// attributes.
pub open spec fn tells(s: Seq<char>, c: Cond) -> bool
    decreases c,
{
    match c {
        Cond::Const(b) => within(s, "::leaf_core::CondExpr::Const("@, ")"@) == Some(
            if b {
                "true"@
            } else {
                "false"@
            },
        ),
        Cond::Leaf { id, attrs } => within(s, "::leaf_core::CondExpr::Leaf("@, ")"@) == Some(
            id + ", "@ + attrs,
        ),
        Cond::All(children) => exists|texts: Seq<Seq<char>>|
            {
                &&& texts.len() == children.len()
                &&& forall|k: int|
                    0 <= k < children.len() ==> tells(#[trigger] texts[k], children[k])
                &&& #[trigger] encloses(s, "::leaf_core::CondExpr::All(&["@, texts, "])"@)
            },
        Cond::Any(children) => exists|texts: Seq<Seq<char>>|
            {
                &&& texts.len() == children.len()
                &&& forall|k: int|
                    0 <= k < children.len() ==> tells(#[trigger] texts[k], children[k])
                &&& #[trigger] encloses(s, "::leaf_core::CondExpr::Any(&["@, texts, "])"@)
            },
        Cond::Not(denied) => within(s, "::leaf_core::CondExpr::Not(&"@, ")"@) matches Some(inner)
            && tells(inner, *denied),
    }
}

/// The source of a tree tells the tree.
pub proof fn tree_is_told(c: Cond)
    ensures
        tells(emitted(c), c),
    decreases c,
{
    match c {
        Cond::Const(b) => {
            within_brackets("::leaf_core::CondExpr::Const("@, bool_source(b), ")"@);
        },
        Cond::Leaf { id, attrs } => {
            let inner = id + ", "@ + attrs;
            within_brackets("::leaf_core::CondExpr::Leaf("@, inner, ")"@);
            assert(emitted(c) =~= "::leaf_core::CondExpr::Leaf("@ + inner + ")"@);
        },
        Cond::All(children) => {
            children_are_told(children);
            list_is_enclosed("::leaf_core::CondExpr::All(&["@, emitted_all(children), "])"@);
        },
        Cond::Any(children) => {
            children_are_told(children);
            list_is_enclosed("::leaf_core::CondExpr::Any(&["@, emitted_all(children), "])"@);
        },
        Cond::Not(inner) => {
            tree_is_told(*inner);
            within_brackets("::leaf_core::CondExpr::Not(&"@, emitted(*inner), ")"@);
        },
    }
}

/// The sources of children tell the children.
proof fn children_are_told(children: Seq<Cond>)
    ensures
        emitted_all(children).len() == children.len(),
        forall|k: int| 0 <= k < children.len() ==> tells(#[trigger] emitted_all(children)[k], children[k]),
    decreases children,
{
    assert forall|k: int| 0 <= k < children.len() implies tells(
        #[trigger] emitted_all(children)[k],
        children[k],
    ) by {
        tree_is_told(children[k]);
    }
}

/// Prints `tree` as a constant `::leaf_core::CondExpr` expression.
pub fn emit(tree: &CondTree) -> (res: String)
    ensures
        res@ == emitted(tree@),
    decreases tree,
{
    match tree {
        CondTree::Const(b) => "::leaf_core::CondExpr::Const(".to_string().concat(
            bool_text(*b),
        ).concat(")"),
        CondTree::Leaf { id, attrs } => "::leaf_core::CondExpr::Leaf(".to_string().concat(
            id.as_str(),
        ).concat(", ").concat(attrs.as_str()).concat(")"),
        CondTree::Not(inner) => {
            let child = emit(inner);
            "::leaf_core::CondExpr::Not(&".to_string().concat(child.as_str()).concat(")")
        },
        CondTree::All(children) => {
            let mut rows: Vec<String> = Vec::new();
            let mut i: usize = 0;
            while i < children.len()
                invariant
                    tree == CondTree::All(*children),
                    i <= children.len(),
                    rows@.len() == i,
                    forall|k: int|
                        0 <= k < i ==> (#[trigger] rows@[k])@ == emitted_all(tree@->All_0)[k],
                decreases children.len() - i,
            {
                assert(decreases_to!(tree => tree->All_0));
                rows.push(emit(&children[i]));
                i += 1;
            }
            assert(rows.deep_view() =~= emitted_all(tree@->All_0));
            let list = join_texts(&rows, ", ");
            "::leaf_core::CondExpr::All(&[".to_string().concat(list.as_str()).concat("])")
        },
        CondTree::Any(children) => {
            let mut rows: Vec<String> = Vec::new();
            let mut i: usize = 0;
            while i < children.len()
                invariant
                    tree == CondTree::Any(*children),
                    i <= children.len(),
                    rows@.len() == i,
                    forall|k: int|
                        0 <= k < i ==> (#[trigger] rows@[k])@ == emitted_all(tree@->Any_0)[k],
                decreases children.len() - i,
            {
                assert(decreases_to!(tree => tree->Any_0));
                rows.push(emit(&children[i]));
                i += 1;
            }
            assert(rows.deep_view() =~= emitted_all(tree@->Any_0));
            let list = join_texts(&rows, ", ");
            "::leaf_core::CondExpr::Any(&[".to_string().concat(list.as_str()).concat("])")
        },
    }
}

/// Folds `tree`, then prints it.
pub fn fold_and_emit(tree: &CondTree) -> (res: String)
    ensures
        res@ == emitted(folded(tree@)),
{
    emit(&fold(tree))
}

/// An auto-configuration: its identity, and the identities it asks to be placed
/// before and after.
#[derive(Clone, Debug, PartialEq, Eq)]
pub struct AutoConfigEntry {
    /// The identity, a path such as `crate::module::Ident`.
    pub contract_path: String,
    /// The identities this one comes before.
    pub before: Vec<String>,
    /// The identities this one comes after.
    pub after: Vec<String>,
}

impl AutoConfigEntry {
    /// An entry without edges.
    pub fn new(contract_path: &str) -> (res: AutoConfigEntry)
        ensures
            res.contract_path@ == contract_path@,
            res.before@.len() == 0,
            res.after@.len() == 0,
    {
        AutoConfigEntry {
            contract_path: contract_path.to_string(),
            before: Vec::new(),
            after: Vec::new(),
        }
    }

    /// This entry with one more identity to come before.
    pub fn before(self, other: &str) -> (res: AutoConfigEntry)
        ensures
            res.contract_path == self.contract_path,
            res.before.deep_view() == self.before.deep_view().push(other@),
            res.after == self.after,
    {
        let mut before = self.before;
        before.push(other.to_string());
        assert(before.deep_view() =~= self.before.deep_view().push(other@));
        AutoConfigEntry { contract_path: self.contract_path, before, after: self.after }
    }

    /// This entry with one more identity to come after.
    pub fn after(self, other: &str) -> (res: AutoConfigEntry)
        ensures
            res.contract_path == self.contract_path,
            res.before == self.before,
            res.after.deep_view() == self.after.deep_view().push(other@),
    {
        let mut after = self.after;
        after.push(other.to_string());
        assert(after.deep_view() =~= self.after.deep_view().push(other@));
        AutoConfigEntry { contract_path: self.contract_path, before: self.before, after }
    }
}

/// Auto-configurations that can be put into no order.
#[derive(Clone, Debug, PartialEq, Eq)]
pub struct OrderCycle {
    /// The identities that wait for one another, ascending.
    pub members: Vec<String>,
}

impl OrderCycle {
    /// The message for a reader.
    pub fn message(&self) -> (res: String)
        ensures
            res@ == "auto-config ordering has a cycle among: "@ + join(
                self.members.deep_view(),
                ", "@,
            ),
    {
        let list = join_texts(&self.members, ", ");
        "auto-config ordering has a cycle among: ".to_string().concat(list.as_str())
    }
}

/// A total order of auto-configurations.
#[derive(Clone, Debug, PartialEq, Eq)]
pub struct AutoConfigPlan {
    /// The identities, the earliest first.
    pub order: Vec<String>,
}

/// The rows of a plan: one contract id for each identity.
pub open spec fn contract_rows(order: Seq<Seq<char>>) -> Seq<Seq<char>> {
    Seq::new(
        order.len(),
        |i: int| "::leaf_core::ContractId::of("@ + literal_source(order[i]) + ")"@,
    )
}

impl AutoConfigPlan {
    /// Prints the order as a constant list of contract ids.
    pub fn emit(&self) -> (res: String)
        ensures
            res@
                == "#[doc(hidden)] pub const __LEAF_AUTOCONFIG_PLAN: &[::leaf_core::ContractId] = &["@
                + join(contract_rows(self.order.deep_view()), ", "@) + "];"@,
            encloses(
                res@,
                "#[doc(hidden)] pub const __LEAF_AUTOCONFIG_PLAN: &[::leaf_core::ContractId] = &["@,
                Seq::new(
                    self.order.deep_view().len(),
                    |i: int|
                        "::leaf_core::ContractId::of("@ + literal_source(self.order.deep_view()[i])
                            + ")"@,
                ),
                "];"@,
            ),
    {
        let mut rows: Vec<String> = Vec::new();
        let mut i: usize = 0;
        while i < self.order.len()
            invariant
                i <= self.order.len(),
                rows@.len() == i,
                forall|k: int|
                    0 <= k < i ==> (#[trigger] rows@[k])@ == contract_rows(
                        self.order.deep_view(),
                    )[k],
            decreases self.order.len() - i,
        {
            let path = string_literal(self.order[i].as_str());
            rows.push(
                "::leaf_core::ContractId::of(".to_string().concat(path.as_str()).concat(")"),
            );
            i += 1;
        }
        assert(rows.deep_view() =~= contract_rows(self.order.deep_view()));
        let list = join_texts(&rows, ", ");
        proof {
            let order = self.order.deep_view();
            let each = Seq::new(
                order.len(),
                |i: int| "::leaf_core::ContractId::of("@ + literal_source(order[i]) + ")"@,
            );
            assert(contract_rows(order) =~= each);
            list_is_enclosed(
                "#[doc(hidden)] pub const __LEAF_AUTOCONFIG_PLAN: &[::leaf_core::ContractId] = &["@,
                each,
                "];"@,
            );
        }
        "#[doc(hidden)] pub const __LEAF_AUTOCONFIG_PLAN: &[::leaf_core::ContractId] = &["
            .to_string().concat(list.as_str()).concat("];")
    }
}

/// `name` is the identity of one of `entries`.
pub open spec fn known(entries: Seq<AutoConfigEntry>, name: Seq<char>) -> bool {
    exists|i: int| 0 <= i < entries.len() && (#[trigger] entries[i]).contract_path@ == name
}

/// `e` asks that `a` come before `b`.
pub open spec fn declares(e: AutoConfigEntry, a: Seq<char>, b: Seq<char>) -> bool {
    ||| e.contract_path@ == a && e.before.deep_view().contains(b)
    ||| e.contract_path@ == b && e.after.deep_view().contains(a)
}

/// `a` and `b` take part, and an entry asks that `a` come before `b`. An edge to an
/// identity that takes no part binds nobody.
pub open spec fn precedes(entries: Seq<AutoConfigEntry>, a: Seq<char>, b: Seq<char>) -> bool {
    &&& known(entries, a)
    &&& known(entries, b)
    &&& exists|i: int| 0 <= i < entries.len() && declares(#[trigger] entries[i], a, b)
}

/// All that must come before `name` is in `done`.
pub open spec fn ready(
    entries: Seq<AutoConfigEntry>,
    done: Seq<Seq<char>>,
    name: Seq<char>,
) -> bool {
    forall|p: Seq<char>| #[trigger] precedes(entries, p, name) ==> done.contains(p)
}

/// `order` holds the identities of `entries`, each once. Each stands behind all that
/// must come before it, and is the least of those that could have stood in its place.
pub open spec fn is_plan(entries: Seq<AutoConfigEntry>, order: Seq<Seq<char>>) -> bool {
    &&& order.no_duplicates()
    &&& forall|n: Seq<char>| order.contains(n) <==> #[trigger] known(entries, n)
    &&& forall|i: int| 0 <= i < order.len() ==> ready(entries, order.take(i), #[trigger] order[i])
    &&& forall|i: int, j: int|
        0 <= i < j < order.len() && ready(entries, order.take(i), order[j]) ==> less(
            #[trigger] order[i],
            #[trigger] order[j],
        )
}

/// One of `names` must come before `n`.
#[verifier::opaque]
pub open spec fn waits(
    entries: Seq<AutoConfigEntry>,
    names: Set<Seq<char>>,
    n: Seq<char>,
) -> bool {
    exists|p: Seq<char>| names.contains(p) && #[trigger] precedes(entries, p, n)
}

/// Each of `names` takes part and must come after one of `names`.
pub open spec fn stuck(entries: Seq<AutoConfigEntry>, names: Set<Seq<char>>) -> bool {
    forall|n: Seq<char>| #[trigger]
        names.contains(n) ==> known(entries, n) && waits(entries, names, n)
}

/// `members` are, ascending, the identities that can never be placed: the largest set
/// whose members wait for one another.
pub open spec fn is_cycle(entries: Seq<AutoConfigEntry>, members: Seq<Seq<char>>) -> bool {
    &&& members.len() > 0
    &&& ascending(members)
    &&& stuck(entries, members.to_set())
    &&& forall|s: Set<Seq<char>>|
        #[trigger] stuck(entries, s) ==> s.subset_of(members.to_set())
}

/// No identities wait for one another.
pub open spec fn orderable(entries: Seq<AutoConfigEntry>) -> bool {
    forall|s: Set<Seq<char>>| #[trigger] stuck(entries, s) ==> s == Set::<Seq<char>>::empty()
}

/// Nothing that waits for itself is ever placed.
proof fn stuck_is_not_placed(
    entries: Seq<AutoConfigEntry>,
    order: Seq<Seq<char>>,
    s: Set<Seq<char>>,
    i: int,
)
    requires
        forall|i: int| 0 <= i < order.len() ==> ready(entries, order.take(i), #[trigger] order[i]),
        stuck(entries, s),
        0 <= i < order.len(),
    ensures
        !s.contains(order[i]),
    decreases i,
{
    if s.contains(order[i]) {
        reveal(waits);
        let p = choose|p: Seq<char>| s.contains(p) && #[trigger] precedes(entries, p, order[i]);
        assert(ready(entries, order.take(i), order[i]));
        assert(order.take(i).contains(p));
        let k = choose|k: int| 0 <= k < order.take(i).len() && order.take(i)[k] == p;
        stuck_is_not_placed(entries, order, s, k);
    }
}

/// Where there is a plan, nothing waits for itself; so a plan and a cycle exclude
/// each other.
pub proof fn plan_excludes_cycle(
    entries: Seq<AutoConfigEntry>,
    order: Seq<Seq<char>>,
    s: Set<Seq<char>>,
)
    requires
        is_plan(entries, order),
        stuck(entries, s),
    ensures
        s == Set::<Seq<char>>::empty(),
{
    assert forall|n: Seq<char>| !s.contains(n) by {
        if s.contains(n) {
            assert(known(entries, n));
            assert(order.contains(n));
            let i = choose|i: int| 0 <= i < order.len() && order[i] == n;
            stuck_is_not_placed(entries, order, s, i);
        }
    }
    assert(s =~= Set::<Seq<char>>::empty());
}

/// A plan keeps every edge between identities that take part.
pub proof fn plan_keeps_edges(
    entries: Seq<AutoConfigEntry>,
    order: Seq<Seq<char>>,
    i: int,
    j: int,
)
    requires
        is_plan(entries, order),
        0 <= i < order.len(),
        0 <= j < order.len(),
        precedes(entries, order[i], order[j]),
    ensures
        i < j,
{
    assert(order.take(j).contains(order[i]));
    let k = choose|k: int| 0 <= k < order.take(j).len() && order.take(j)[k] == order[i];
    assert(order[k] == order[i]);
}

/// What an entry says goes before another stands before it in the plan, and what it says goes after
/// another stands behind it, where both take part.
pub proof fn plan_goes_by_what_entries_say(
    entries: Seq<AutoConfigEntry>,
    order: Seq<Seq<char>>,
    k: int,
    i: int,
    j: int,
)
    requires
        is_plan(entries, order),
        0 <= k < entries.len(),
        0 <= i < order.len(),
        0 <= j < order.len(),
        order[i] == entries[k].contract_path@,
    ensures
        entries[k].before.deep_view().contains(order[j]) ==> i < j,
        entries[k].after.deep_view().contains(order[j]) ==> j < i,
{
    assert(order.contains(order[i]) && order.contains(order[j]));
    assert(known(entries, order[i]) && known(entries, order[j]));
    if entries[k].before.deep_view().contains(order[j]) {
        assert(declares(entries[k], order[i], order[j]));
        assert(precedes(entries, order[i], order[j]));
        plan_keeps_edges(entries, order, i, j);
    }
    if entries[k].after.deep_view().contains(order[j]) {
        assert(declares(entries[k], order[j], order[i]));
        assert(precedes(entries, order[j], order[i]));
        plan_keeps_edges(entries, order, j, i);
    }
}

/// The plan depends on the identities and the edges alone: entries that agree on
/// these, in whatever sequence they come, have the same plan.
pub proof fn plan_is_unique(
    entries: Seq<AutoConfigEntry>,
    others: Seq<AutoConfigEntry>,
    order: Seq<Seq<char>>,
    other_order: Seq<Seq<char>>,
)
    requires
        is_plan(entries, order),
        is_plan(others, other_order),
        forall|n: Seq<char>| known(entries, n) <==> known(others, n),
        forall|a: Seq<char>, b: Seq<char>| precedes(entries, a, b) <==> precedes(others, a, b),
    ensures
        order == other_order,
{
    plans_agree(entries, others, order, other_order, order.len() as int);
    assert(order.take(order.len() as int) =~= order);
    if other_order.len() > order.len() {
        let n = other_order[order.len() as int];
        assert(other_order.contains(n));
        assert(known(others, n) && known(entries, n));
        assert(order.contains(n));
        let k = choose|k: int| 0 <= k < order.len() && order[k] == n;
        assert(other_order.take(order.len() as int)[k] == n);
        assert(other_order[k] == n);
    }
    assert(order =~= other_order);
}

/// Two plans of the same identities and edges agree up to `n`.
proof fn plans_agree(
    entries: Seq<AutoConfigEntry>,
    others: Seq<AutoConfigEntry>,
    order: Seq<Seq<char>>,
    other_order: Seq<Seq<char>>,
    n: int,
)
    requires
        is_plan(entries, order),
        is_plan(others, other_order),
        forall|n: Seq<char>| known(entries, n) <==> known(others, n),
        forall|a: Seq<char>, b: Seq<char>| precedes(entries, a, b) <==> precedes(others, a, b),
        0 <= n <= order.len(),
    ensures
        n <= other_order.len(),
        order.take(n) == other_order.take(n),
    decreases n,
{
    if n > 0 {
        let m = n - 1;
        plans_agree(entries, others, order, other_order, m);
        let x = order[m];
        assert(order.contains(x));
        assert(known(entries, x) && known(others, x));
        assert(other_order.contains(x));
        let k = choose|k: int| 0 <= k < other_order.len() && other_order[k] == x;
        if k < m {
            assert(other_order.take(m)[k] == x);
            assert(order.take(m)[k] == x);
            assert(order[k] == order[m]);
        }
        let y = other_order[m];
        assert(other_order.contains(y));
        assert(known(others, y) && known(entries, y));
        assert(order.contains(y));
        let l = choose|l: int| 0 <= l < order.len() && order[l] == y;
        if l < m {
            assert(order.take(m)[l] == y);
            assert(other_order.take(m)[l] == y);
            assert(other_order[l] == other_order[m]);
        }
        if x != y {
            assert(ready(entries, order.take(m), order[m]));
            assert(ready(others, other_order.take(m), other_order[m]));
            assert forall|p: Seq<char>| #[trigger] precedes(others, p, x) implies other_order.take(
                m,
            ).contains(p) by {
                assert(precedes(entries, p, x));
            }
            assert(ready(others, other_order.take(m), other_order[k]));
            assert forall|p: Seq<char>| #[trigger] precedes(entries, p, y) implies order.take(
                m,
            ).contains(p) by {
                assert(precedes(others, p, y));
            }
            assert(ready(entries, order.take(m), order[l]));
            assert(less(other_order[m], other_order[k]));
            assert(less(order[m], order[l]));
            less_asymmetric(x, y);
        }
        assert(order.take(n) =~= order.take(m).push(x));
        assert(other_order.take(n) =~= other_order.take(m).push(y));
    }
}

/// Whether an entry asks that `a` come before `b`.
fn is_declared(entries: &[AutoConfigEntry], a: &str, b: &str) -> (res: bool)
    ensures
        res == (exists|i: int| 0 <= i < entries@.len() && declares(#[trigger] entries@[i], a@, b@)),
{
    let mut i: usize = 0;
    while i < entries.len()
        invariant
            i <= entries@.len(),
            forall|k: int| 0 <= k < i ==> !declares(#[trigger] entries@[k], a@, b@),
        decreases entries@.len() - i,
    {
        let e = &entries[i];
        let forward = str_eq(e.contract_path.as_str(), a) && contains_text(&e.before, b);
        let backward = str_eq(e.contract_path.as_str(), b) && contains_text(&e.after, a);
        if forward || backward {
            assert(declares(entries@[i as int], a@, b@));
            return true;
        }
        i += 1;
    }
    false
}

/// The first of `left` that none of `left` must come before.
fn first_free(entries: &[AutoConfigEntry], left: &Vec<String>) -> (res: Option<usize>)
    requires
        forall|k: int| 0 <= k < left@.len() ==> known(entries@, #[trigger] left.deep_view()[k]),
    ensures
        match res {
            Some(k) => {
                &&& k < left@.len()
                &&& !waits(entries@, left.deep_view().to_set(), left.deep_view()[k as int])
                &&& forall|i: int|
                    0 <= i < k ==> waits(
                        entries@,
                        left.deep_view().to_set(),
                        #[trigger] left.deep_view()[i],
                    )
            },
            None => forall|i: int|
                0 <= i < left@.len() ==> waits(
                    entries@,
                    left.deep_view().to_set(),
                    #[trigger] left.deep_view()[i],
                ),
        },
{
    let ghost names = left.deep_view();
    let mut k: usize = 0;
    while k < left.len()
        invariant
            names == left.deep_view(),
            k <= left.len(),
            forall|k: int| 0 <= k < left@.len() ==> known(entries@, #[trigger] names[k]),
            forall|i: int| 0 <= i < k ==> waits(entries@, names.to_set(), #[trigger] names[i]),
        decreases left.len() - k,
    {
        let mut j: usize = 0;
        assert(names[k as int] == left@[k as int]@);
        while j < left.len() && !is_declared(entries, left[j].as_str(), left[k].as_str())
            invariant
                names == left.deep_view(),
                k < left.len(),
                j <= left.len(),
                forall|i: int|
                    0 <= i < j ==> !precedes(entries@, #[trigger] names[i], names[k as int]),
            decreases left.len() - j,
        {
            assert(names[j as int] == left@[j as int]@);
            j += 1;
        }
        proof {
            reveal(waits);
        }
        if j == left.len() {
            return Some(k);
        }
        assert(names[j as int] == left@[j as int]@);
        assert(names.to_set().contains(names[j as int]));
        assert(precedes(entries@, names[j as int], names[k as int]));
        k += 1;
    }
    None
}

/// The identities of `entries`, ascending.
fn identities(entries: &[AutoConfigEntry]) -> (res: Vec<String>)
    ensures
        ascending(res.deep_view()),
        forall|n: Seq<char>| res.deep_view().contains(n) <==> #[trigger] known(entries@, n),
{
    let mut names = NameSet::new();
    let mut i: usize = 0;
    while i < entries.len()
        invariant
            i <= entries@.len(),
            forall|n: Seq<char>| names@.contains(n) <==> #[trigger] known(entries@.take(i as int), n),
        decreases entries@.len() - i,
    {
        let ghost before = names@;
        names.insert(entries[i].contract_path.as_str());
        proof {
            let path = entries@[i as int].contract_path@;
            assert forall|n: Seq<char>| names@.contains(n) <==> #[trigger] known(
                entries@.take(i + 1),
                n,
            ) by {
                if known(entries@.take(i as int), n) {
                    let k = choose|k: int|
                        0 <= k < entries@.take(i as int).len() && (#[trigger] entries@.take(
                            i as int,
                        )[k]).contract_path@ == n;
                    assert(entries@.take(i + 1)[k].contract_path@ == n);
                }
                if n == path {
                    assert(entries@.take(i + 1)[i as int].contract_path@ == n);
                }
                if known(entries@.take(i + 1), n) {
                    let k = choose|k: int|
                        0 <= k < entries@.take(i + 1).len() && (#[trigger] entries@.take(
                            i + 1,
                        )[k]).contract_path@ == n;
                    if k < i {
                        assert(entries@.take(i as int)[k].contract_path@ == n);
                        assert(known(entries@.take(i as int), n));
                    }
                }
            }
        }
        i += 1;
    }
    assert(entries@.take(i as int) =~= entries@);
    let listed = names.names();
    let mut out: Vec<String> = Vec::new();
    let mut k: usize = 0;
    while k < listed.len()
        invariant
            k <= listed.len(),
            out@.len() == k,
            forall|j: int| 0 <= j < k ==> (#[trigger] out@[j])@ == listed@[j]@,
        decreases listed.len() - k,
    {
        out.push(listed[k].to_string());
        k += 1;
    }
    assert(out.deep_view() =~= listed.deep_view());
    out
}

/// Puts the entries into the one order that keeps their edges and places, at each
/// step, the least identity that is ready.
pub fn plan_order(entries: &[AutoConfigEntry]) -> (res: Result<AutoConfigPlan, OrderCycle>)
    ensures
        match res {
            Ok(plan) => is_plan(entries@, plan.order.deep_view()),
            Err(cycle) => is_cycle(entries@, cycle.members.deep_view()),
        },
        res is Ok <==> orderable(entries@),
{
    let mut left = identities(entries);
    let mut order: Vec<String> = Vec::new();
    proof {
        ascending_no_duplicates(left.deep_view());
    }
    while left.len() > 0
        invariant
            halfway(entries@, left.deep_view(), order.deep_view()),
        decreases left.len(),
    {
        let ghost waiting = left.deep_view();
        let ghost done = order.deep_view();
        assert forall|k: int| 0 <= k < left@.len() implies known(
            entries@,
            #[trigger] left.deep_view()[k],
        ) by {
            assert(left.deep_view().contains(left.deep_view()[k]));
        }
        let next = match first_free(entries, &left) {
            Some(k) => k,
            None => {
                proof {
                    cycle_found(entries@, waiting, done);
                    assert(waiting.to_set().contains(waiting[0]));
                    assert(stuck(entries@, waiting.to_set()));
                }
                return Err(OrderCycle { members: left });
            },
        };
        let name = left.remove(next);
        order.push(name);
        proof {
            assert(left.deep_view() =~= waiting.remove(next as int));
            assert(order.deep_view() =~= done.push(waiting[next as int]));
            place_next(entries@, waiting, done, next as int);
        }
    }
    proof {
        assert(left.deep_view().len() == 0);
        assert forall|n: Seq<char>| order.deep_view().contains(n) <==> #[trigger] known(
            entries@,
            n,
        ) by {}
        assert forall|s: Set<Seq<char>>| #[trigger] stuck(entries@, s) implies s == Set::<
            Seq<char>,
        >::empty() by {
            plan_excludes_cycle(entries@, order.deep_view(), s);
        }
    }
    Ok(AutoConfigPlan { order })
}

/// What [`plan_order`] keeps: `done` is the beginning of a plan, and `waiting` is what
/// is still to be placed.
spec fn halfway(
    entries: Seq<AutoConfigEntry>,
    waiting: Seq<Seq<char>>,
    done: Seq<Seq<char>>,
) -> bool {
    &&& ascending(waiting)
    &&& waiting.no_duplicates()
    &&& done.no_duplicates()
    &&& forall|n: Seq<char>| #[trigger]
        known(entries, n) <==> waiting.contains(n) || done.contains(n)
    &&& forall|n: Seq<char>| !(#[trigger] waiting.contains(n) && done.contains(n))
    &&& forall|i: int| 0 <= i < done.len() ==> ready(entries, done.take(i), #[trigger] done[i])
    &&& forall|i: int, j: int|
        0 <= i < j < done.len() && ready(entries, done.take(i), done[j]) ==> less(
            #[trigger] done[i],
            #[trigger] done[j],
        )
    &&& forall|i: int, n: Seq<char>|
        0 <= i < done.len() && waiting.contains(n) && ready(entries, done.take(i), n)
            ==> #[trigger] less(done[i], n)
}

/// Where each of `waiting` waits for another of them, they are a cycle.
proof fn cycle_found(
    entries: Seq<AutoConfigEntry>,
    waiting: Seq<Seq<char>>,
    done: Seq<Seq<char>>,
)
    requires
        halfway(entries, waiting, done),
        waiting.len() > 0,
        forall|i: int|
            0 <= i < waiting.len() ==> waits(entries, waiting.to_set(), #[trigger] waiting[i]),
    ensures
        is_cycle(entries, waiting),
{
    let members = waiting.to_set();
    assert forall|n: Seq<char>| #[trigger] members.contains(n) implies known(entries, n) && waits(
        entries,
        members,
        n,
    ) by {
        let k = choose|k: int| 0 <= k < waiting.len() && waiting[k] == n;
        assert(waits(entries, members, waiting[k]));
        assert(waiting.contains(n));
    }
    assert forall|s: Set<Seq<char>>| #[trigger] stuck(entries, s) implies s.subset_of(members) by {
        assert forall|n: Seq<char>| s.contains(n) implies members.contains(n) by {
            assert(known(entries, n));
            if done.contains(n) {
                let i = choose|i: int| 0 <= i < done.len() && done[i] == n;
                stuck_is_not_placed(entries, done, s, i);
            }
        }
    }
}

/// Placing the first that is free keeps the beginning of a plan a beginning.
proof fn place_next(
    entries: Seq<AutoConfigEntry>,
    waiting: Seq<Seq<char>>,
    done: Seq<Seq<char>>,
    next: int,
)
    requires
        halfway(entries, waiting, done),
        0 <= next < waiting.len(),
        !waits(entries, waiting.to_set(), waiting[next]),
        forall|i: int|
            0 <= i < next ==> waits(entries, waiting.to_set(), #[trigger] waiting[i]),
    ensures
        halfway(entries, waiting.remove(next), done.push(waiting[next])),
{
    let name = waiting[next];
    let left = waiting.remove(next);
    let order = done.push(name);
    assert(waiting.contains(name));
    assert(ready(entries, done, name)) by {
        assert forall|p: Seq<char>| #[trigger] precedes(entries, p, name) implies done.contains(p) by {
            assert(known(entries, p));
            if waiting.contains(p) {
                reveal(waits);
                assert(waiting.to_set().contains(p));
            }
        }
    }
    assert forall|n: Seq<char>| left.contains(n) <==> waiting.contains(n) && n != name by {
        if left.contains(n) {
            let i = choose|i: int| 0 <= i < left.len() && left[i] == n;
            let w = if i < next {
                i
            } else {
                i + 1
            };
            assert(waiting[w] == n);
        }
        if waiting.contains(n) && n != name {
            let w = choose|w: int| 0 <= w < waiting.len() && waiting[w] == n;
            let i = if w < next {
                w
            } else {
                w - 1
            };
            assert(left[i] == n);
        }
    }
    assert forall|n: Seq<char>| order.contains(n) <==> done.contains(n) || n == name by {
        if done.contains(n) {
            let i = choose|i: int| 0 <= i < done.len() && done[i] == n;
            assert(order[i] == n);
        }
        if n == name {
            assert(order[done.len() as int] == n);
        }
        if order.contains(n) {
            let i = choose|i: int| 0 <= i < order.len() && order[i] == n;
            if i < done.len() {
                assert(done[i] == n);
            }
        }
    }
    assert forall|i: int, j: int| 0 <= i < j < left.len() implies less(
        #[trigger] left[i],
        #[trigger] left[j],
    ) by {
        let wi = if i < next {
            i
        } else {
            i + 1
        };
        let wj = if j < next {
            j
        } else {
            j + 1
        };
        assert(less(waiting[wi], waiting[wj]));
    }
    ascending_no_duplicates(left);
    assert forall|i: int, j: int|
        0 <= i < order.len() && 0 <= j < order.len() && i != j implies order[i] != order[j] by {
        if i == done.len() {
            assert(done.contains(done[j]));
        } else if j == done.len() {
            assert(done.contains(done[i]));
        }
    }
    assert(order.take(done.len() as int) =~= done);
    assert forall|i: int| 0 <= i < order.len() implies ready(
        entries,
        order.take(i),
        #[trigger] order[i],
    ) by {
        if i < done.len() {
            assert(order.take(i) =~= done.take(i));
            assert(ready(entries, done.take(i), done[i]));
        }
    }
    assert forall|i: int, j: int|
        0 <= i < j < order.len() && ready(entries, order.take(i), order[j]) implies less(
        #[trigger] order[i],
        #[trigger] order[j],
    ) by {
        assert(order.take(i) =~= done.take(i));
        if j < done.len() {
            assert(less(done[i], done[j]));
        } else {
            assert(less(done[i], name));
        }
    }
    assert forall|i: int, n: Seq<char>|
        0 <= i < order.len() && left.contains(n) && ready(
            entries,
            order.take(i),
            n,
        ) implies #[trigger] less(order[i], n) by {
        assert(waiting.contains(n));
        if i < done.len() {
            assert(order.take(i) =~= done.take(i));
            assert(less(done[i], n));
        } else {
            let w = choose|w: int| 0 <= w < waiting.len() && waiting[w] == n;
            if w < next {
                reveal(waits);
                let p = choose|p: Seq<char>|
                    waiting.to_set().contains(p) && #[trigger] precedes(entries, p, waiting[w]);
                assert(waiting.contains(p));
                assert(order.take(i) =~= done);
                assert(done.contains(p));
            }
            assert(less(waiting[next], waiting[w]));
        }
    }
}

} // verus!
