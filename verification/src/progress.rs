//! Growing a tree always gets it closer to fully grown: what its parts still
//! owe never increases, and strictly decreases while the tree is not fully
//! grown. So repeated growing finishes every tree.
use vstd::prelude::*;

use crate::branch::{
    Branch, BranchChildren, branch_cloned, branch_fully_grown, branch_grows_into, branchs_cloned, children_cloned,
    children_fully_grown, children_grow_into, leaves_fully_grown, leaves_grow_into,
};
use crate::growth::{Growable, lemma_grow_monotone, lemma_grow_pays_deficit};
use crate::leaf::{Leaf, leaf_fully_grown, leaves_cloned};
use crate::tree::{Tree, tree_cloned};

verus! {

// ----- what is still owed -----

/// What the leaves still owe, summed.
pub open spec fn leaves_deficit<L>(leaves: Seq<Leaf<L>>) -> nat
    decreases leaves.len(),
{
    if leaves.len() == 0 {
        0
    } else {
        leaves[0].growth@.deficit() + leaves_deficit(leaves.subrange(1, leaves.len() as int))
    }
}

/// What a branch and everything on it still owe.
pub open spec fn branch_deficit<B, L>(branch: Branch<B, L>) -> nat
    decreases branch, 0nat,
{
    branch.growth@.deficit() + children_deficit(branch.children)
}

/// What the children of a branch and everything on them still owe.
pub open spec fn children_deficit<B, L>(children: BranchChildren<B, L>) -> nat
    decreases children, 1nat,
{
    match children {
        BranchChildren::Leaves(leaves) => leaves_deficit(leaves@),
        BranchChildren::Branchs(branchs) => branches_deficit(branchs@),
        BranchChildren::Mixed(leaves, branchs) => leaves_deficit(leaves@) + branches_deficit(branchs@),
    }
}

/// What a list of branches and everything on them still owe.
pub open spec fn branches_deficit<B, L>(branchs: Seq<Branch<B, L>>) -> nat
    decreases branchs, 2nat,
{
    if branchs.len() == 0 {
        0
    } else {
        branch_deficit(branchs[0]) + branches_deficit(branchs.subrange(1, branchs.len() as int))
    }
}

/// What a tree still owes.
pub open spec fn tree_deficit<B, L>(tree: Tree<B, L>) -> nat {
    branches_deficit(tree.root@)
}

// ----- growth factors that make progress -----

/// Every leaf grows by a positive unit.
pub open spec fn leaves_factors_positive<L>(leaves: Seq<Leaf<L>>) -> bool {
    forall|i: int| 0 <= i < leaves.len() ==> (#[trigger] leaves[i]).growth@.factor >= 1
}

/// Every growth on the branch has a positive unit.
pub open spec fn branch_factors_positive<B, L>(branch: Branch<B, L>) -> bool
    decreases branch,
{
    &&& branch.growth@.factor >= 1
    &&& children_factors_positive(branch.children)
}

/// Every growth on the children has a positive unit.
pub open spec fn children_factors_positive<B, L>(children: BranchChildren<B, L>) -> bool
    decreases children,
{
    match children {
        BranchChildren::Leaves(leaves) => leaves_factors_positive(leaves@),
        BranchChildren::Branchs(branchs) => forall|i: int|
            0 <= i < branchs@.len() ==> branch_factors_positive(#[trigger] branchs@[i]),
        BranchChildren::Mixed(leaves, branchs) => {
            &&& leaves_factors_positive(leaves@)
            &&& forall|i: int| 0 <= i < branchs@.len() ==> branch_factors_positive(#[trigger] branchs@[i])
        },
    }
}

/// Every growth in the tree has a positive unit.
pub open spec fn tree_factors_positive<B, L>(tree: Tree<B, L>) -> bool {
    forall|i: int| 0 <= i < tree.root@.len() ==> branch_factors_positive(#[trigger] tree.root@[i])
}

// ----- the proofs -----

/// Growing leaves never increases what they owe; if they are not all fully
/// grown, every unit is positive and `factors` is at least 1, it decreases.
proof fn lemma_leaves_progress<L>(leaves: Seq<Leaf<L>>, next: Seq<Leaf<L>>, factors: u16)
    requires
        leaves_grow_into(leaves, next, factors),
    ensures
        leaves_deficit(next) <= leaves_deficit(leaves),
        leaves_fully_grown(leaves) ==> leaves_fully_grown(next),
        !leaves_fully_grown(leaves) && leaves_factors_positive(leaves) && factors >= 1
            ==> leaves_deficit(next) < leaves_deficit(leaves),
    decreases leaves.len(),
{
    if leaves.len() > 0 {
        let rest = leaves.subrange(1, leaves.len() as int);
        let next_rest = next.subrange(1, next.len() as int);
        assert forall|i: int| 0 <= i < rest.len() implies crate::leaf::leaf_grows_into(
            #[trigger] rest[i],
            next_rest[i],
            factors,
        ) by {
            assert(rest[i] == leaves[i + 1]);
            assert(next_rest[i] == next[i + 1]);
        }
        lemma_leaves_progress(rest, next_rest, factors);
        let g = leaves[0].growth@;
        let a = g.factor * factors;
        lemma_grow_pays_deficit(g, a);
        lemma_grow_monotone(g, a);
        assert(crate::leaf::leaf_grows_into(leaves[0], next[0], factors));
        if leaves_fully_grown(leaves) {
            assert(leaf_fully_grown(leaves[0]));
            assert forall|i: int| 0 <= i < rest.len() implies leaf_fully_grown(#[trigger] rest[i]) by {
                assert(rest[i] == leaves[i + 1]);
            }
            assert forall|i: int| 0 <= i < next.len() implies leaf_fully_grown(#[trigger] next[i]) by {
                if i > 0 {
                    assert(next_rest[i - 1] == next[i]);
                }
            }
        }
        if !leaves_fully_grown(leaves) && leaves_factors_positive(leaves) && factors >= 1 {
            assert(leaves[0].growth@.factor >= 1);
            assert(a >= 1) by (nonlinear_arith)
                requires
                    a == g.factor * factors,
                    g.factor >= 1,
                    factors >= 1,
            ;
            if !leaf_fully_grown(leaves[0]) {
            } else {
                assert(!leaves_fully_grown(rest)) by {
                    let i = choose|i: int| 0 <= i < leaves.len() && !leaf_fully_grown(#[trigger] leaves[i]);
                    assert(i != 0);
                    assert(rest[i - 1] == leaves[i]);
                }
                assert(leaves_factors_positive(rest)) by {
                    assert forall|i: int| 0 <= i < rest.len() implies (#[trigger] rest[i]).growth@.factor >= 1 by {
                        assert(rest[i] == leaves[i + 1]);
                    }
                }
            }
        }
    }
}

/// Growing a branch never increases what it owes and keeps it fully grown
/// if it was; if it is not fully grown, every unit is positive and `factors`
/// is at least 1, what it owes decreases.
pub proof fn lemma_branch_progress<B, L>(branch: Branch<B, L>, next: Branch<B, L>, factors: u16)
    requires
        branch_grows_into(branch, next, factors),
    ensures
        branch_deficit(next) <= branch_deficit(branch),
        branch_fully_grown(branch) ==> branch_fully_grown(next),
        !branch_fully_grown(branch) && branch_factors_positive(branch) && factors >= 1
            ==> branch_deficit(next) < branch_deficit(branch),
    decreases branch, 0nat,
{
    let g = branch.growth@;
    let a = g.factor * factors;
    if g.fully_grown() {
        lemma_children_progress(branch.children, next.children, factors);
    } else {
        lemma_grow_pays_deficit(g, a);
        if branch_factors_positive(branch) && factors >= 1 {
            assert(a >= 1) by (nonlinear_arith)
                requires
                    a == g.factor * factors,
                    g.factor >= 1,
                    factors >= 1,
            ;
        }
    }
}

/// Growing children never increases what they owe and keeps them fully
/// grown if they were; if they are not fully grown, every unit is positive
/// and `factors` is at least 1, what they owe decreases.
pub proof fn lemma_children_progress<B, L>(
    children: BranchChildren<B, L>,
    next: BranchChildren<B, L>,
    factors: u16,
)
    requires
        children_grow_into(children, next, factors),
    ensures
        children_deficit(next) <= children_deficit(children),
        children_fully_grown(children) ==> children_fully_grown(next),
        !children_fully_grown(children) && children_factors_positive(children) && factors >= 1
            ==> children_deficit(next) < children_deficit(children),
    decreases children, 1nat,
{
    match children {
        BranchChildren::Leaves(leaves) => {
            let next_leaves = next->Leaves_0;
            lemma_leaves_progress(leaves@, next_leaves@, factors);
        },
        BranchChildren::Branchs(branchs) => {
            let next_branchs = next->Branchs_0;
            assert(decreases_to!(children => branchs@));
            lemma_branches_progress(branchs@, next_branchs@, factors);
        },
        BranchChildren::Mixed(leaves, branchs) => {
            let next_leaves = next->Mixed_0;
            let next_branchs = next->Mixed_1;
            lemma_leaves_progress(leaves@, next_leaves@, factors);
            assert(decreases_to!(children => branchs@));
            lemma_branches_progress(branchs@, next_branchs@, factors);
        },
    }
}

/// Growing a list of branches never increases what they owe and keeps them
/// fully grown if they were; if they are not all fully grown, every unit is
/// positive and `factors` is at least 1, what they owe decreases.
pub proof fn lemma_branches_progress<B, L>(
    branchs: Seq<Branch<B, L>>,
    next: Seq<Branch<B, L>>,
    factors: u16,
)
    requires
        next.len() == branchs.len(),
        forall|i: int| 0 <= i < branchs.len() ==> branch_grows_into(#[trigger] branchs[i], next[i], factors),
    ensures
        branches_deficit(next) <= branches_deficit(branchs),
        (forall|i: int| 0 <= i < branchs.len() ==> branch_fully_grown(#[trigger] branchs[i]))
            ==> (forall|i: int| 0 <= i < next.len() ==> branch_fully_grown(#[trigger] next[i])),
        !(forall|i: int| 0 <= i < branchs.len() ==> branch_fully_grown(#[trigger] branchs[i]))
            && (forall|i: int| 0 <= i < branchs.len() ==> branch_factors_positive(#[trigger] branchs[i]))
            && factors >= 1 ==> branches_deficit(next) < branches_deficit(branchs),
    decreases branchs, 2nat,
{
    if branchs.len() > 0 {
        let rest = branchs.subrange(1, branchs.len() as int);
        let next_rest = next.subrange(1, next.len() as int);
        assert forall|i: int| 0 <= i < rest.len() implies branch_grows_into(
            #[trigger] rest[i],
            next_rest[i],
            factors,
        ) by {
            assert(rest[i] == branchs[i + 1]);
            assert(next_rest[i] == next[i + 1]);
        }
        assert(branch_grows_into(branchs[0], next[0], factors));
        lemma_branch_progress(branchs[0], next[0], factors);
        lemma_branches_progress(rest, next_rest, factors);
        if forall|i: int| 0 <= i < branchs.len() ==> branch_fully_grown(#[trigger] branchs[i]) {
            assert(branch_fully_grown(branchs[0]));
            assert forall|i: int| 0 <= i < rest.len() implies branch_fully_grown(#[trigger] rest[i]) by {
                assert(rest[i] == branchs[i + 1]);
            }
            assert forall|i: int| 0 <= i < next.len() implies branch_fully_grown(#[trigger] next[i]) by {
                if i > 0 {
                    assert(next_rest[i - 1] == next[i]);
                }
            }
        }
        if !(forall|i: int| 0 <= i < branchs.len() ==> branch_fully_grown(#[trigger] branchs[i]))
            && (forall|i: int| 0 <= i < branchs.len() ==> branch_factors_positive(#[trigger] branchs[i]))
            && factors >= 1 {
            assert(branch_factors_positive(branchs[0]));
            if !branch_fully_grown(branchs[0]) {
            } else {
                assert(!(forall|i: int| 0 <= i < rest.len() ==> branch_fully_grown(#[trigger] rest[i]))) by {
                    let i = choose|i: int| 0 <= i < branchs.len() && !branch_fully_grown(#[trigger] branchs[i]);
                    assert(i != 0);
                    assert(rest[i - 1] == branchs[i]);
                }
                assert forall|i: int| 0 <= i < rest.len() implies branch_factors_positive(#[trigger] rest[i]) by {
                    assert(rest[i] == branchs[i + 1]);
                }
            }
        }
    }
}

/// Growing a tree never increases what it still owes, and a fully grown tree
/// stays fully grown. While the tree is not fully grown, and every growth in
/// it has a positive unit, growing it by at least one unit strictly reduces
/// what it owes; since that is a natural number, repeated growing makes every
/// such tree fully grown.
pub proof fn lemma_tree_grow_progress<B, L>(tree: Tree<B, L>, next: Tree<B, L>, factors: u16)
    requires
        tree.grows_into(&next, factors),
    ensures
        tree_deficit(next) <= tree_deficit(tree),
        tree.fully_grown() ==> next.fully_grown(),
        !tree.fully_grown() && tree_factors_positive(tree) && factors >= 1
            ==> tree_deficit(next) < tree_deficit(tree),
{
    lemma_branches_progress(tree.root@, next.root@, factors);
}


// ----- copies -----

/// Copied leaves owe what the leaves owe, and are fully grown exactly when
/// they are.
proof fn lemma_leaves_cloned_owe_alike<L: Clone>(leaves: Seq<Leaf<L>>, copy: Seq<Leaf<L>>)
    requires
        leaves_cloned(leaves, copy),
    ensures
        leaves_deficit(copy) == leaves_deficit(leaves),
        leaves_fully_grown(copy) == leaves_fully_grown(leaves),
    decreases leaves.len(),
{
    if leaves.len() > 0 {
        let rest = leaves.subrange(1, leaves.len() as int);
        let copy_rest = copy.subrange(1, copy.len() as int);
        assert forall|i: int| 0 <= i < rest.len() implies crate::leaf::leaf_cloned(#[trigger] rest[i], copy_rest[i]) by {
            assert(rest[i] == leaves[i + 1]);
            assert(copy_rest[i] == copy[i + 1]);
        }
        lemma_leaves_cloned_owe_alike(rest, copy_rest);
        assert(crate::leaf::leaf_cloned(leaves[0], copy[0]));
    }
    assert(leaves_fully_grown(copy) == leaves_fully_grown(leaves)) by {
        assert forall|i: int| 0 <= i < leaves.len() implies #[trigger] leaves[i].growth == copy[i].growth by {
            assert(crate::leaf::leaf_cloned(leaves[i], copy[i]));
        }
        if leaves_fully_grown(leaves) {
            assert forall|i: int| 0 <= i < copy.len() implies leaf_fully_grown(#[trigger] copy[i]) by {
                assert(leaves[i].growth == copy[i].growth);
            }
        }
        if leaves_fully_grown(copy) {
            assert forall|i: int| 0 <= i < leaves.len() implies leaf_fully_grown(#[trigger] leaves[i]) by {
                assert(leaves[i].growth == copy[i].growth);
                assert(leaf_fully_grown(copy[i]));
            }
        }
    }
}

/// A copy of a branch owes what the branch owes, and is fully grown exactly
/// when the branch is.
pub proof fn lemma_branch_cloned_owes_alike<B: Clone, L: Clone>(branch: Branch<B, L>, copy: Branch<B, L>)
    requires
        branch_cloned(branch, copy),
    ensures
        branch_deficit(copy) == branch_deficit(branch),
        branch_fully_grown(copy) == branch_fully_grown(branch),
    decreases branch, 0nat,
{
    lemma_children_cloned_owe_alike(branch.children, copy.children);
}

/// Copied children owe what the children owe, and are fully grown exactly
/// when they are.
pub proof fn lemma_children_cloned_owe_alike<B: Clone, L: Clone>(
    children: BranchChildren<B, L>,
    copy: BranchChildren<B, L>,
)
    requires
        children_cloned(children, copy),
    ensures
        children_deficit(copy) == children_deficit(children),
        children_fully_grown(copy) == children_fully_grown(children),
    decreases children, 1nat,
{
    match children {
        BranchChildren::Leaves(leaves) => {
            lemma_leaves_cloned_owe_alike(leaves@, copy->Leaves_0@);
        },
        BranchChildren::Branchs(branchs) => {
            assert(decreases_to!(children => branchs@));
            lemma_branches_cloned_owe_alike(branchs@, copy->Branchs_0@);
        },
        BranchChildren::Mixed(leaves, branchs) => {
            lemma_leaves_cloned_owe_alike(leaves@, copy->Mixed_0@);
            assert(decreases_to!(children => branchs@));
            lemma_branches_cloned_owe_alike(branchs@, copy->Mixed_1@);
        },
    }
}

/// Copied branches owe what the branches owe, and are all fully grown
/// exactly when those are.
pub proof fn lemma_branches_cloned_owe_alike<B: Clone, L: Clone>(
    branchs: Seq<Branch<B, L>>,
    copy: Seq<Branch<B, L>>,
)
    requires
        branchs_cloned(branchs, copy),
    ensures
        branches_deficit(copy) == branches_deficit(branchs),
        (forall|i: int| 0 <= i < copy.len() ==> branch_fully_grown(#[trigger] copy[i]))
            == (forall|i: int| 0 <= i < branchs.len() ==> branch_fully_grown(#[trigger] branchs[i])),
    decreases branchs, 2nat,
{
    if branchs.len() > 0 {
        let rest = branchs.subrange(1, branchs.len() as int);
        let copy_rest = copy.subrange(1, copy.len() as int);
        assert forall|i: int| 0 <= i < rest.len() implies branch_cloned(#[trigger] rest[i], copy_rest[i]) by {
            assert(rest[i] == branchs[i + 1]);
            assert(copy_rest[i] == copy[i + 1]);
        }
        lemma_branches_cloned_owe_alike(rest, copy_rest);
        assert(branch_cloned(branchs[0], copy[0]));
        lemma_branch_cloned_owes_alike(branchs[0], copy[0]);
    }
    assert forall|i: int| 0 <= i < branchs.len() implies branch_fully_grown(#[trigger] copy[i])
        == branch_fully_grown(branchs[i]) by {
        assert(branch_cloned(branchs[i], copy[i]));
        lemma_branch_cloned_owes_alike(branchs[i], copy[i]);
    }
    if forall|i: int| 0 <= i < branchs.len() ==> branch_fully_grown(#[trigger] branchs[i]) {
        assert forall|i: int| 0 <= i < copy.len() implies branch_fully_grown(#[trigger] copy[i]) by {
            assert(branch_fully_grown(branchs[i]));
        }
    }
    if forall|i: int| 0 <= i < copy.len() ==> branch_fully_grown(#[trigger] copy[i]) {
        assert forall|i: int| 0 <= i < branchs.len() implies branch_fully_grown(#[trigger] branchs[i]) by {
            assert(branch_fully_grown(copy[i]));
        }
    }
}

/// A copy of a tree is as far grown as the tree: it owes exactly what the
/// tree owes (every growth amount and dormancy carried over), and it is
/// fully grown exactly when the tree is.
pub proof fn lemma_tree_cloned_owes_alike<B: Clone, L: Clone>(tree: Tree<B, L>, copy: Tree<B, L>)
    requires
        tree_cloned(tree, copy),
    ensures
        tree_deficit(copy) == tree_deficit(tree),
        copy.fully_grown() == tree.fully_grown(),
{
    lemma_branches_cloned_owe_alike(tree.root@, copy.root@);
}

} // verus!
