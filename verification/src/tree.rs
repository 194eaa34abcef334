//! Trees: a set of root branches, their generation, their growth, and the
//! themes they are drawn in.
use rand::seq::SliceRandom;
use vstd::prelude::*;

use crate::branch::{
    Branch, BranchProducer, BranchShape, Stem, branch_built, branch_from, branch_can_grow, branch_grows_into, branch_fully_grown,
    branchs_cloned, clone_branch_list, lemma_branch_can_grow_by_one,
};
use crate::growth::Growable;
use crate::leaf::LeafShape;
use crate::render::Viewport;
use vstd::std_specs::convert::TryFromSpec;

verus! {

/// Procedural generation of a whole tree.
pub trait TreeProducer {
    /// What makes each branch.
    type Branches: BranchProducer;

    /// What makes each branch.
    fn get_branch_producer(&self) -> &Self::Branches;

    /// How many branches grow from the root.
    fn get_root_branch_count(&self) -> usize;

    /// The angle of root branch number `branch_index` of `branch_count`, the
    /// tree itself being grown at `angle` (the root branches spread around it).
    fn get_root_branch_angle(
        &self,
        angle: <Self::Branches as BranchProducer>::Scalar,
        branch_count: usize,
        branch_index: usize,
    ) -> <Self::Branches as BranchProducer>::Scalar
        requires
            branch_index < branch_count,
    ;
}

/// Shuffles `indexes` in place with the thread's random generator.
///
/// Calls `rand::seq::SliceRandom::shuffle` with `rand::rng()`. The order that
/// comes out is random; the shuffle only swaps elements, so the contract
/// says that the length and the elements are kept, in some order.
#[verifier::external_body]
fn shuffle_indexes(indexes: &mut Vec<usize>)
    ensures
        final(indexes)@.len() == old(indexes)@.len(),
        final(indexes)@.to_multiset() == old(indexes)@.to_multiset(),
{
    indexes.shuffle(&mut rand::rng());
}

/// The indexes `0, 1, ..., n - 1` in order.
pub open spec fn index_range(n: nat) -> Seq<usize> {
    Seq::new(n, |i: int| i as usize)
}

/// Whether `order` holds each of the indexes `0, 1, ..., n - 1` exactly once.
pub open spec fn index_order(order: Seq<usize>, n: usize) -> bool {
    &&& order.len() == n
    &&& order.to_multiset() == index_range(n as nat).to_multiset()
}

/// Whether `branch` is root branch number `index` of `branch_count` that
/// `producer` grows from `stem` for `depth` levels: generated by `branches`
/// from `stem` with only its angle changed, to one that `producer` can give
/// for the stem's angle and the index.
pub open spec fn root_from<Pos, F, C, P: TreeProducer>(
    branch: Branch<BranchShape<Pos, F>, LeafShape<Pos, F, C>>,
    stem: Stem<Pos, F>,
    branch_count: usize,
    index: usize,
    depth: u8,
    producer: &P,
    branches: &P::Branches,
) -> bool where P::Branches: BranchProducer<Position = Pos, Scalar = F, Color = C> {
    exists|angle: F|
        #![trigger call_ensures(P::get_root_branch_angle, (producer, stem.angle, branch_count, index), angle)]
        call_ensures(P::get_root_branch_angle, (producer, stem.angle, branch_count, index), angle)
            && branch_from(branch, Stem { angle, ..stem }, depth, branches, false)
}

/// Whether `roots` are the `branch_count` root branches that `producer`
/// grows from `stem` for `depth` levels: with the branch producer it hands
/// out, root `k` being root number `order[k]`, for an order that holds each
/// index once.
pub open spec fn roots_from<Pos, F, C, P: TreeProducer>(
    roots: Seq<Branch<BranchShape<Pos, F>, LeafShape<Pos, F, C>>>,
    stem: Stem<Pos, F>,
    depth: u8,
    branch_count: usize,
    producer: &P,
) -> bool where P::Branches: BranchProducer<Position = Pos, Scalar = F, Color = C> {
    &&& roots.len() == branch_count
    &&& exists|branches: &P::Branches, order: Seq<usize>|
        #![trigger call_ensures(P::get_branch_producer, (producer,), branches), index_order(order, branch_count)]
        call_ensures(P::get_branch_producer, (producer,), branches)
            && index_order(order, branch_count)
            && forall|k: int|
            0 <= k < branch_count ==> root_from(#[trigger] roots[k], stem, branch_count, order[k], depth, producer, branches)
}

/// A tree: the branches that grow from its root.
#[derive(Debug)]
pub struct Tree<B, L> {
    /// The branches that grow from the root.
    pub root: Vec<Branch<B, L>>,
}

/// Whether `copy` is a copy of `tree`: every root branch copied, in order.
pub open spec fn tree_cloned<B: Clone, L: Clone>(tree: Tree<B, L>, copy: Tree<B, L>) -> bool {
    branchs_cloned(tree.root@, copy.root@)
}

impl<B: Clone, L: Clone> Clone for Tree<B, L> {
    /// A copy of the tree and everything on it, growth included.
    fn clone(&self) -> (copy: Self)
        ensures
            tree_cloned(*self, copy),
    {
        Tree { root: clone_branch_list(&self.root) }
    }
}

impl<Pos: Copy, F: Copy, C> Tree<BranchShape<Pos, F>, LeafShape<Pos, F, C>> {
    /// A tree growing from `position` with branches of the given length,
    /// angle and thickness, generated for `depth` levels: as many root
    /// branches as `producer` asks for.
    pub fn new<P: TreeProducer>(
        position: Pos,
        length: F,
        angle: F,
        thickness: F,
        depth: u8,
        producer: &P,
    ) -> (tree: Self) where P::Branches: BranchProducer<Position = Pos, Scalar = F, Color = C>
        ensures
            forall|i: int| 0 <= i < tree.root@.len() ==> branch_built(#[trigger] tree.root@[i], depth as nat),
            exists|branch_count: usize|
                #![trigger call_ensures(P::get_root_branch_count, (producer,), branch_count)]
                call_ensures(P::get_root_branch_count, (producer,), branch_count)
                    && roots_from(tree.root@, Stem { position, length, angle, thickness }, depth, branch_count, producer),
    {
        let branch_count = producer.get_root_branch_count();
        let tree = Self::new_with_count(position, length, angle, thickness, depth, branch_count, producer);
        assert(call_ensures(P::get_root_branch_count, (producer,), branch_count)
            && roots_from(tree.root@, Stem { position, length, angle, thickness }, depth, branch_count, producer));
        tree
    }

    /// A tree growing from `position` with branches of the given length,
    /// angle and thickness, generated for `depth` levels, with `branch_count`
    /// root branches: root branch number `i` starts at `position` with the
    /// given length and thickness, at the angle that `producer` gives for
    /// `i`. They are built in a random order, for a nicer animation, root `k`
    /// being number `order[k]` for an order that holds each index once.
    pub fn new_with_count<P: TreeProducer>(
        position: Pos,
        length: F,
        angle: F,
        thickness: F,
        depth: u8,
        branch_count: usize,
        producer: &P,
    ) -> (tree: Self) where P::Branches: BranchProducer<Position = Pos, Scalar = F, Color = C>
        ensures
            tree.root@.len() == branch_count,
            forall|i: int| 0 <= i < tree.root@.len() ==> branch_built(#[trigger] tree.root@[i], depth as nat),
            roots_from(tree.root@, Stem { position, length, angle, thickness }, depth, branch_count, producer),
    {
        let branch_producer = producer.get_branch_producer();

        let mut branch_indexes: Vec<usize> = Vec::new();
        for i in 0..branch_count
            invariant
                branch_indexes@ == index_range(i as nat),
        {
            branch_indexes.push(i);
            assert(branch_indexes@ =~= index_range((i + 1) as nat));
        }
        let ghost ordered = branch_indexes@;
        // Better animation
        shuffle_indexes(&mut branch_indexes);
        proof {
            broadcast use vstd::seq_lib::group_to_multiset_ensures;
            assert forall|k: int| 0 <= k < branch_indexes@.len() implies #[trigger] branch_indexes@[k] < branch_count by {
                let x = branch_indexes@[k];
                assert(branch_indexes@.contains(x));
                assert(branch_indexes@.to_multiset().count(x) > 0);
                assert(ordered.to_multiset().count(x) > 0);
                assert(ordered.contains(x));
            }
        }

        let mut branchs: Vec<Branch<BranchShape<Pos, F>, LeafShape<Pos, F, C>>> = Vec::with_capacity(branch_count);

        let n = branch_indexes.len();
        for k in 0..n
            invariant
                n == branch_indexes@.len(),
                n == branch_count,
                branchs@.len() == k,
                forall|j: int| 0 <= j < n ==> #[trigger] branch_indexes@[j] < branch_count,
                forall|j: int| 0 <= j < branchs@.len() ==> branch_built(#[trigger] branchs@[j], depth as nat),
                call_ensures(P::get_branch_producer, (producer,), branch_producer),
                forall|j: int|
                    0 <= j < branchs@.len() ==> root_from(
                        #[trigger] branchs@[j],
                        Stem { position, length, angle, thickness },
                        branch_count,
                        branch_indexes@[j],
                        depth,
                        producer,
                        branch_producer,
                    ),
        {
            let i = branch_indexes[k];
            let root_angle = producer.get_root_branch_angle(angle, branch_count, i);

            let branch = Branch::new_nested(position, length, root_angle, thickness, depth, branch_producer);
            assert(call_ensures(P::get_root_branch_angle, (producer, angle, branch_count, i), root_angle)
                && branch_from(
                branch,
                Stem { angle: root_angle, ..Stem { position, length, angle, thickness } },
                depth,
                branch_producer,
                false,
            ));

            branchs.push(branch);
        }

        assert(index_order(branch_indexes@, branch_count));
        assert(call_ensures(P::get_branch_producer, (producer,), branch_producer));
        Self { root: branchs }
    }
}

impl<B, L> Growable for Tree<B, L> {
    open spec fn can_grow(&self, factors: u16) -> bool {
        forall|i: int| 0 <= i < self.root@.len() ==> branch_can_grow(#[trigger] self.root@[i], factors)
    }

    open spec fn grows_into(&self, next: &Self, factors: u16) -> bool {
        &&& next.root@.len() == self.root@.len()
        &&& forall|i: int|
            0 <= i < self.root@.len() ==> branch_grows_into(#[trigger] self.root@[i], next.root@[i], factors)
    }

    open spec fn fully_grown(&self) -> bool {
        forall|i: int| 0 <= i < self.root@.len() ==> branch_fully_grown(#[trigger] self.root@[i])
    }

    fn grow(&mut self, factors: u16) {
        self.root.grow(factors);
    }

    fn is_fully_grown(&self) -> (b: bool) {
        self.root.is_fully_grown()
    }
}

/// The color theme a tree is drawn in.
#[derive(Debug, Clone, PartialEq, Eq, Structural)]
pub enum TreeTheme {
    Pink,
    Green,
    Orange,
}

impl TreeTheme {
    /// The two base colors (red, green, blue) between which the leaves'
    /// colors vary.
    pub fn get_leaf_color_bases(&self) -> (bases: ((u8, u8, u8), (u8, u8, u8)))
        ensures
            bases == match *self {
                TreeTheme::Pink => ((220u8, 100u8, 120u8), (240u8, 150u8, 160u8)),
                TreeTheme::Green => ((20u8, 120u8, 20u8), (40u8, 200u8, 20u8)),
                TreeTheme::Orange => ((20u8, 120u8, 20u8), (40u8, 200u8, 20u8)),
            },
    {
        match self {
            TreeTheme::Pink => {
                let start_color: (u8, u8, u8) = (220, 100, 120);
                let end_color: (u8, u8, u8) = (240, 150, 160);

                (start_color, end_color)
            },
            TreeTheme::Green => {
                let start_color: (u8, u8, u8) = (20, 120, 20);
                let end_color: (u8, u8, u8) = (40, 200, 20);

                (start_color, end_color)
            },
            TreeTheme::Orange => {
                let start_color: (u8, u8, u8) = (20, 120, 20);
                let end_color: (u8, u8, u8) = (40, 200, 20);

                (start_color, end_color)
            },
        }
    }

    /// The color (red, green, blue) of the branches, the same in every theme.
    pub fn get_branch_color(&self) -> (color: (u8, u8, u8))
        ensures
            color == (74u8, 53u8, 37u8),
    {
        (74, 53, 37)
    }
}

/// The error for a theme name that names no theme.
#[derive(Debug)]
pub struct TreeThemeErr;

impl TreeThemeErr {
    /// What the error says.
    pub fn message(&self) -> (text: &'static str)
        ensures
            text@ == "Invalid tree theme value!"@,
    {
        "Invalid tree theme value!"
    }
}

/// The theme that a theme name stands for, if any.
pub open spec fn theme_from_name(name: Seq<char>) -> Result<TreeTheme, TreeThemeErr> {
    if name == "pink"@ {
        Ok(TreeTheme::Pink)
    } else if name == "green"@ {
        Ok(TreeTheme::Green)
    } else if name == "orange"@ {
        Ok(TreeTheme::Orange)
    } else {
        Err(TreeThemeErr)
    }
}

impl<'a> TryFrom<&'a str> for TreeTheme {
    type Error = TreeThemeErr;

    fn try_from(value: &'a str) -> (theme: Result<Self, Self::Error>) {
        let name = value.to_owned();
        if name == "pink".to_owned() {
            Ok(Self::Pink)
        } else if name == "green".to_owned() {
            Ok(Self::Green)
        } else if name == "orange".to_owned() {
            Ok(Self::Orange)
        } else {
            Err(TreeThemeErr)
        }
    }
}

impl<'a> vstd::std_specs::convert::TryFromSpecImpl<&'a str> for TreeTheme {
    open spec fn obeys_try_from_spec() -> bool {
        true
    }

    open spec fn try_from_spec(value: &'a str) -> Result<Self, Self::Error> {
        theme_from_name(value@)
    }
}

/// Only the three whole theme names name a theme, each its own: converting a
/// name gives the pink theme exactly for "pink", the green theme exactly for
/// "green", the orange theme exactly for "orange", and an error for every
/// other name.
pub proof fn lemma_theme_names<'a>(value: &'a str)
    ensures
        (<TreeTheme as TryFromSpec<&'a str>>::try_from_spec(value) == Ok::<TreeTheme, TreeThemeErr>(TreeTheme::Pink))
            <==> value@ == "pink"@,
        (<TreeTheme as TryFromSpec<&'a str>>::try_from_spec(value) == Ok::<TreeTheme, TreeThemeErr>(TreeTheme::Green))
            <==> value@ == "green"@,
        (<TreeTheme as TryFromSpec<&'a str>>::try_from_spec(value) == Ok::<TreeTheme, TreeThemeErr>(TreeTheme::Orange))
            <==> value@ == "orange"@,
        <TreeTheme as TryFromSpec<&'a str>>::try_from_spec(value) is Err
            <==> (value@ != "pink"@ && value@ != "green"@ && value@ != "orange"@),
{
    reveal_strlit("pink");
    reveal_strlit("green");
    reveal_strlit("orange");
    assert("pink"@[0] != "green"@[0]);
    assert("pink"@[0] != "orange"@[0]);
    assert("green"@[0] != "orange"@[0]);
}

/// A tree together with what it is drawn with and in.
pub struct TreeContext<R, B, L> {
    /// The tree.
    pub tree: Tree<B, L>,
    /// The size of the area the tree is drawn in.
    pub viewport: Viewport,
    /// What draws the tree.
    pub renderer: R,
    /// The theme the tree is drawn in.
    pub theme: TreeTheme,
}

impl<R, B, L> TreeContext<R, B, L> {
    /// A context from its parts.
    pub fn new(renderer: R, viewport: Viewport, tree: Tree<B, L>, theme: TreeTheme) -> (context: Self)
        ensures
            context.tree == tree,
            context.viewport == viewport,
            context.renderer == renderer,
            context.theme == theme,
    {
        Self { viewport, tree, theme, renderer }
    }

    /// Grows the tree by one unit.
    pub fn grow(&mut self)
        ensures
            old(self).tree.grows_into(&final(self).tree, 1),
            final(self).viewport == old(self).viewport,
            final(self).renderer == old(self).renderer,
            final(self).theme == old(self).theme,
    {
        proof {
            assert forall|i: int| 0 <= i < self.tree.root@.len() implies branch_can_grow(
                #[trigger] self.tree.root@[i],
                1,
            ) by {
                lemma_branch_can_grow_by_one(self.tree.root@[i]);
            }
        }
        self.tree.grow(1);
    }

    /// The tree.
    pub fn get_tree(&self) -> (tree: &Tree<B, L>)
        ensures
            *tree == self.tree,
    {
        &self.tree
    }
}

} // verus!
