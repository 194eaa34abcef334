//! Branches: each carries either leaves or further branches.
use vstd::prelude::*;

use crate::growth::{Growable, Growth, GrowthView, GROWTH_MAX};
use crate::leaf::{
    Leaf, LeafBunchProducer, LeafShape, bunch_from, clone_leaves, leaf_can_grow, leaf_grows_into, leaf_fully_grown,
    leaves_cloned,
};

verus! {

/// Procedural generation of branches.
pub trait BranchProducer {
    /// A point of the plane: where a branch starts and ends.
    type Position: Copy;
    /// Lengths and angles.
    type Scalar: Copy;
    /// How the color of a leaf varies.
    type Color;
    /// What makes the leaves at the tips.
    type LeafBunch: LeafBunchProducer<Position = Self::Position, Scalar = Self::Scalar, Color = Self::Color>;

    /// What makes the leaves at the tips.
    fn get_leaf_bunch_producer(&self) -> &Self::LeafBunch;

    /// The curve of a new branch.
    fn get_curve(&self) -> Self::Scalar;

    /// The initial growth of a new branch of the given length.
    fn get_growth(&self, length: Self::Scalar) -> Growth;

    /// Where a branch grown from `stem` ends (the end of a straight segment of
    /// its length at its angle).
    fn get_end_position(&self, stem: &Stem<Self::Position, Self::Scalar>) -> Self::Position;

    /// Length of the main branch child.
    fn get_main_length(&self, length: Self::Scalar) -> Self::Scalar;

    /// Angle of the main branch child.
    fn get_main_angle(&self, angle: Self::Scalar) -> Self::Scalar;

    /// Thickness of the main branch child.
    fn get_main_thickness(&self, thickness: Self::Scalar) -> Self::Scalar;

    /// The depth of the main child of a branch of depth `depth`; less than
    /// `depth`, so that generation ends.
    fn get_main_depth(&self, depth: u8) -> (main_depth: u8)
        requires
            depth > 0,
        ensures
            main_depth < depth,
    ;

    /// Length of a side branch child.
    fn get_child_length(&self, length: Self::Scalar) -> Self::Scalar;

    /// Angle of a side branch child.
    fn get_child_angle(&self, angle: Self::Scalar) -> Self::Scalar;

    /// Thickness of a side branch child.
    fn get_child_thickness(&self, thickness: Self::Scalar) -> Self::Scalar;

    /// The depth of a side child of a branch of depth `depth`. It is used
    /// only where the main child's depth is over 1, so only there (where
    /// `depth` is over 1) it must be less than `depth`, so that generation
    /// ends.
    fn get_child_depth(&self, depth: u8) -> (child_depth: u8)
        requires
            depth > 0,
        ensures
            depth > 1 ==> child_depth < depth,
    ;

    /// How many side children a branch has.
    fn get_child_branch_count(&self) -> usize;
}

/// What a branch is made from: where it starts, how long it is, its angle
/// and its thickness.
#[derive(Debug, Clone, Copy)]
pub struct Stem<P, F> {
    pub position: P,
    pub length: F,
    pub angle: F,
    pub thickness: F,
}

/// Where and how a branch is drawn: its stem and its curve.
#[derive(Debug, Copy)]
pub struct BranchShape<P, F> {
    pub position: P,
    pub length: F,
    pub angle: F,
    pub thickness: F,
    pub curve: F,
}

impl<P: Copy, F: Copy> Clone for BranchShape<P, F> {
    /// The same shape.
    fn clone(&self) -> (copy: Self)
        ensures
            copy == *self,
    {
        *self
    }
}

/// What grows out of the end of a branch.
#[derive(Debug)]
pub enum BranchChildren<B, L> {
    /// Only leaves (possibly none).
    Leaves(Vec<Leaf<L>>),
    /// Only further branches.
    Branchs(Vec<Branch<B, L>>),
    /// Leaves and branches together.
    Mixed(Vec<Leaf<L>>, Vec<Branch<B, L>>),
}

/// A branch: its shape (position, length, angle, thickness, curve), what
/// grows out of its end, and its own growth.
#[derive(Debug)]
pub struct Branch<B, L> {
    /// Geometry of the branch.
    pub shape: B,
    /// What grows out of the end of the branch.
    pub children: BranchChildren<B, L>,
    /// Growth of the branch itself.
    pub growth: Growth,
}

// ----- growing leaves -----

/// Whether growing every leaf of `leaves` by `factors` units stays in range.
pub open spec fn leaves_can_grow<L>(leaves: Seq<Leaf<L>>, factors: u16) -> bool {
    forall|i: int| 0 <= i < leaves.len() ==> leaf_can_grow(#[trigger] leaves[i], factors)
}

/// Whether `next` is `leaves` with every leaf grown by `factors` units.
pub open spec fn leaves_grow_into<L>(leaves: Seq<Leaf<L>>, next: Seq<Leaf<L>>, factors: u16) -> bool {
    &&& next.len() == leaves.len()
    &&& forall|i: int| 0 <= i < leaves.len() ==> leaf_grows_into(#[trigger] leaves[i], next[i], factors)
}

/// Whether every leaf of `leaves` is fully grown.
pub open spec fn leaves_fully_grown<L>(leaves: Seq<Leaf<L>>) -> bool {
    forall|i: int| 0 <= i < leaves.len() ==> leaf_fully_grown(#[trigger] leaves[i])
}

// ----- growing branches -----

/// Whether growing the branch by `factors` units stays in range: a branch
/// that is not fully grown itself grows its own growth; one that is, grows
/// its children.
pub open spec fn branch_can_grow<B, L>(branch: Branch<B, L>, factors: u16) -> bool
    decreases branch,
{
    if branch.growth@.fully_grown() {
        children_can_grow(branch.children, factors)
    } else {
        branch.growth@.factor * factors <= GROWTH_MAX
    }
}

/// Whether growing the children by `factors` units stays in range.
pub open spec fn children_can_grow<B, L>(children: BranchChildren<B, L>, factors: u16) -> bool
    decreases children,
{
    match children {
        BranchChildren::Leaves(leaves) => leaves_can_grow(leaves@, factors),
        BranchChildren::Branchs(branchs) => forall|i: int|
            0 <= i < branchs@.len() ==> branch_can_grow(#[trigger] branchs@[i], factors),
        BranchChildren::Mixed(leaves, branchs) => {
            &&& leaves_can_grow(leaves@, factors)
            &&& forall|i: int|
                0 <= i < branchs@.len() ==> branch_can_grow(#[trigger] branchs@[i], factors)
        },
    }
}

/// Whether `next` is what growing `branch` by `factors` units gives: while
/// its own growth is not complete only that grows; after that, its children
/// grow.
pub open spec fn branch_grows_into<B, L>(branch: Branch<B, L>, next: Branch<B, L>, factors: u16) -> bool
    decreases branch,
{
    &&& next.shape == branch.shape
    &&& if branch.growth@.fully_grown() {
        &&& next.growth == branch.growth
        &&& children_grow_into(branch.children, next.children, factors)
    } else {
        &&& next.growth@ == branch.growth@.grown(branch.growth@.factor * factors)
        &&& next.children == branch.children
    }
}

/// Whether `next` is what growing `children` by `factors` units gives: every
/// leaf and every branch grows.
pub open spec fn children_grow_into<B, L>(
    children: BranchChildren<B, L>,
    next: BranchChildren<B, L>,
    factors: u16,
) -> bool
    decreases children,
{
    match children {
        BranchChildren::Leaves(leaves) => match next {
            BranchChildren::Leaves(next_leaves) => leaves_grow_into(leaves@, next_leaves@, factors),
            _ => false,
        },
        BranchChildren::Branchs(branchs) => match next {
            BranchChildren::Branchs(next_branchs) => {
                &&& next_branchs@.len() == branchs@.len()
                &&& forall|i: int|
                    0 <= i < branchs@.len() ==> branch_grows_into(
                        #[trigger] branchs@[i],
                        next_branchs@[i],
                        factors,
                    )
            },
            _ => false,
        },
        BranchChildren::Mixed(leaves, branchs) => match next {
            BranchChildren::Mixed(next_leaves, next_branchs) => {
                &&& leaves_grow_into(leaves@, next_leaves@, factors)
                &&& next_branchs@.len() == branchs@.len()
                &&& forall|i: int|
                    0 <= i < branchs@.len() ==> branch_grows_into(
                        #[trigger] branchs@[i],
                        next_branchs@[i],
                        factors,
                    )
            },
            _ => false,
        },
    }
}

/// A branch counts as fully grown when its children are (its own growth is
/// not consulted).
pub open spec fn branch_fully_grown<B, L>(branch: Branch<B, L>) -> bool
    decreases branch,
{
    children_fully_grown(branch.children)
}

/// Children are fully grown when every leaf and every branch among them is.
pub open spec fn children_fully_grown<B, L>(children: BranchChildren<B, L>) -> bool
    decreases children,
{
    match children {
        BranchChildren::Leaves(leaves) => leaves_fully_grown(leaves@),
        BranchChildren::Branchs(branchs) => forall|i: int|
            0 <= i < branchs@.len() ==> branch_fully_grown(#[trigger] branchs@[i]),
        BranchChildren::Mixed(leaves, branchs) => {
            &&& leaves_fully_grown(leaves@)
            &&& forall|i: int| 0 <= i < branchs@.len() ==> branch_fully_grown(#[trigger] branchs@[i])
        },
    }
}

// ----- the shape of generated branches -----

/// Whether `branch` has the shape of a branch generated for `depth` levels:
/// what grows out of its end does.
pub open spec fn branch_built<B, L>(branch: Branch<B, L>, depth: nat) -> bool
    decreases branch,
{
    children_built(branch.children, depth)
}

/// Whether `children` have the shape of what a branch generated for `depth`
/// levels carries: at depth 0 nothing; never leaves and branches mixed; child
/// branches that fit in one level less, at least one of them, and all but
/// the last (the main continuation, which comes last) fully dormant.
pub open spec fn children_built<B, L>(children: BranchChildren<B, L>, depth: nat) -> bool
    decreases children,
{
    match children {
        BranchChildren::Leaves(leaves) => depth == 0 ==> leaves@.len() == 0,
        BranchChildren::Branchs(branchs) => {
            &&& depth > 0
            &&& branchs@.len() > 0
            &&& forall|i: int|
                0 <= i < branchs@.len() - 1 ==> (#[trigger] branchs@[i]).growth@.dormancy == GROWTH_MAX
            &&& forall|i: int|
                0 <= i < branchs@.len() ==> branch_built(#[trigger] branchs@[i], (depth - 1) as nat)
        },
        BranchChildren::Mixed(_, _) => false,
    }
}

/// Whether `children` are what grows at the end of a branch whose main
/// child has depth `main_depth`: when that is over 1, side branches (fully
/// dormant) followed by the main child, last; when it is 0, leaves; when it
/// is 1, the main child alone.
pub open spec fn children_shaped<B, L>(children: BranchChildren<B, L>, main_depth: u8) -> bool {
    if main_depth > 1 {
        &&& children matches BranchChildren::Branchs(branchs)
        &&& branchs@.len() >= 1
        &&& forall|i: int|
            0 <= i < branchs@.len() - 1 ==> (#[trigger] branchs@[i]).growth@.dormancy == GROWTH_MAX
    } else if main_depth < 1 {
        children matches BranchChildren::Leaves(_)
    } else {
        &&& children matches BranchChildren::Branchs(branchs)
        &&& branchs@.len() == 1
    }
}

// ----- what the producer hands out -----

/// Whether `growth` is a growth that `producer` can give for `length`, made
/// fully dormant when `dormant`.
pub open spec fn growth_from<P: BranchProducer>(growth: Growth, length: P::Scalar, producer: &P, dormant: bool) -> bool {
    if dormant {
        exists|given: Growth|
            #![trigger call_ensures(P::get_growth, (producer, length), given)]
            call_ensures(P::get_growth, (producer, length), given)
                && growth@ == (GrowthView { dormancy: GROWTH_MAX, ..given@ })
    } else {
        call_ensures(P::get_growth, (producer, length), growth)
    }
}

/// Whether `branch` is a branch that `producer` generates from `stem` for
/// `depth` levels (made fully dormant when `dormant`): its shape is the stem
/// with a curve the producer can give, its growth one the producer can give
/// for the stem's length, and its children are as `children_from_stem` says.
pub open spec fn branch_from<Pos, F, C, P: BranchProducer<Position = Pos, Scalar = F, Color = C>>(
    branch: Branch<BranchShape<Pos, F>, LeafShape<Pos, F, C>>,
    stem: Stem<Pos, F>,
    depth: u8,
    producer: &P,
    dormant: bool,
) -> bool
    decreases branch, 2nat,
{
    &&& branch.shape.position == stem.position
    &&& branch.shape.length == stem.length
    &&& branch.shape.angle == stem.angle
    &&& branch.shape.thickness == stem.thickness
    &&& call_ensures(P::get_curve, (producer,), branch.shape.curve)
    &&& growth_from(branch.growth, stem.length, producer, dormant)
    &&& children_from_stem(branch.children, stem, depth, producer)
}

/// Whether `children` are what `producer` puts at the end of a branch grown
/// from `stem` with depth `depth`: at depth 0, no leaves at all; otherwise,
/// for an end position, main and side thicknesses and main and side depths
/// that the producer can give for the stem and the depth, as
/// `children_from` says.
pub open spec fn children_from_stem<Pos, F, C, P: BranchProducer<Position = Pos, Scalar = F, Color = C>>(
    children: BranchChildren<BranchShape<Pos, F>, LeafShape<Pos, F, C>>,
    stem: Stem<Pos, F>,
    depth: u8,
    producer: &P,
) -> bool
    decreases children, 1nat,
{
    if depth == 0 {
        children matches BranchChildren::Leaves(leaves) && leaves@.len() == 0
    } else {
        exists|end: Pos, main_thickness: F, child_thickness: F, main_depth: u8, child_depth: u8|
            #![trigger call_ensures(P::get_end_position, (producer, &stem), end), call_ensures(P::get_main_thickness, (producer, stem.thickness), main_thickness), call_ensures(P::get_child_thickness, (producer, stem.thickness), child_thickness), call_ensures(P::get_main_depth, (producer, depth), main_depth), call_ensures(P::get_child_depth, (producer, depth), child_depth)]
            call_ensures(P::get_end_position, (producer, &stem), end)
                && call_ensures(P::get_main_thickness, (producer, stem.thickness), main_thickness)
                && call_ensures(P::get_child_thickness, (producer, stem.thickness), child_thickness)
                && call_ensures(P::get_main_depth, (producer, depth), main_depth)
                && call_ensures(P::get_child_depth, (producer, depth), child_depth)
                && children_from(
                children,
                end,
                stem,
                depth,
                main_thickness,
                child_thickness,
                main_depth,
                child_depth,
                producer,
            )
    }
}

/// The stem of the main child growing from `end` of a branch grown from
/// `stem`, drawn after the side branches `sides`: it starts at `end`, with a
/// main length and a main angle asked of `producer` for the stem's, and the
/// given thickness.
pub fn draw_main_stem<P: BranchProducer>(
    end: P::Position,
    stem: Stem<P::Position, P::Scalar>,
    thickness: P::Scalar,
    producer: &P,
    sides: Ghost<Seq<Branch<BranchShape<P::Position, P::Scalar>, LeafShape<P::Position, P::Scalar, P::Color>>>>,
) -> (main: Stem<P::Position, P::Scalar>)
    ensures
        main.position == end,
        main.thickness == thickness,
        call_ensures(P::get_main_length, (producer, stem.length), main.length),
        call_ensures(P::get_main_angle, (producer, stem.angle), main.angle),
{
    let length = producer.get_main_length(stem.length);
    let angle = producer.get_main_angle(stem.angle);
    Stem { position: end, length, angle, thickness }
}

/// Whether `main` is the stem that `draw_main_stem` gave for the main child
/// growing from `end` of a branch grown from `stem`, once the side branches
/// `sides` were there.
pub open spec fn main_stem_drawn<P: BranchProducer>(
    main: Stem<P::Position, P::Scalar>,
    end: P::Position,
    stem: Stem<P::Position, P::Scalar>,
    thickness: P::Scalar,
    producer: &P,
    sides: Seq<Branch<BranchShape<P::Position, P::Scalar>, LeafShape<P::Position, P::Scalar, P::Color>>>,
) -> bool {
    call_ensures(draw_main_stem::<P>, (end, stem, thickness, producer, Ghost(sides)), main)
}

/// Whether `branch` is the main child that `producer` grows from `end` of a
/// branch grown from `stem`, after the side branches `sides`: generated for
/// `main_depth` levels from the stem drawn for it once those were there
/// (starting at `end`, with a main length and a main angle asked of the
/// producer for the stem's, and the given thickness).
pub open spec fn main_from<Pos, F, C, P: BranchProducer<Position = Pos, Scalar = F, Color = C>>(
    branch: Branch<BranchShape<Pos, F>, LeafShape<Pos, F, C>>,
    end: Pos,
    stem: Stem<Pos, F>,
    main_thickness: F,
    main_depth: u8,
    producer: &P,
    sides: Seq<Branch<BranchShape<Pos, F>, LeafShape<Pos, F, C>>>,
) -> bool
    decreases branch, 3nat,
{
    exists|main: Stem<Pos, F>|
        #![trigger main_stem_drawn(main, end, stem, main_thickness, producer, sides)]
        main_stem_drawn(main, end, stem, main_thickness, producer, sides)
            && branch_from(branch, main, main_depth, producer, false)
}

/// The stem of a side branch growing from `end` of a branch grown from
/// `stem`, drawn after the side branches `made`: it starts at `end`, with a
/// side length and a side angle asked of `producer` for the stem's, and the
/// given thickness.
pub fn draw_side_stem<P: BranchProducer>(
    end: P::Position,
    stem: Stem<P::Position, P::Scalar>,
    thickness: P::Scalar,
    producer: &P,
    made: Ghost<Seq<Branch<BranchShape<P::Position, P::Scalar>, LeafShape<P::Position, P::Scalar, P::Color>>>>,
) -> (side: Stem<P::Position, P::Scalar>)
    ensures
        side.position == end,
        side.thickness == thickness,
        call_ensures(P::get_child_length, (producer, stem.length), side.length),
        call_ensures(P::get_child_angle, (producer, stem.angle), side.angle),
{
    let length = producer.get_child_length(stem.length);
    let angle = producer.get_child_angle(stem.angle);
    Stem { position: end, length, angle, thickness }
}

/// Whether `side` is the stem that `draw_side_stem` gave for a side branch
/// growing from `end` of a branch grown from `stem`, once the side branches
/// `made` were there.
pub open spec fn side_stem_drawn<P: BranchProducer>(
    side: Stem<P::Position, P::Scalar>,
    end: P::Position,
    stem: Stem<P::Position, P::Scalar>,
    thickness: P::Scalar,
    producer: &P,
    made: Seq<Branch<BranchShape<P::Position, P::Scalar>, LeafShape<P::Position, P::Scalar, P::Color>>>,
) -> bool {
    call_ensures(draw_side_stem::<P>, (end, stem, thickness, producer, Ghost(made)), side)
}

/// Whether `branch` is a side branch that `producer` grows from `end` of a
/// branch grown from `stem`, after the side branches `made`: generated for
/// `child_depth` levels, fully dormant, from the stem drawn for it once
/// those were there (starting at `end`, with a side length and a side angle
/// asked for this side branch alone, and the given thickness).
pub open spec fn side_from<Pos, F, C, P: BranchProducer<Position = Pos, Scalar = F, Color = C>>(
    branch: Branch<BranchShape<Pos, F>, LeafShape<Pos, F, C>>,
    end: Pos,
    stem: Stem<Pos, F>,
    child_thickness: F,
    child_depth: u8,
    producer: &P,
    made: Seq<Branch<BranchShape<Pos, F>, LeafShape<Pos, F, C>>>,
) -> bool
    decreases branch, 3nat,
{
    exists|side: Stem<Pos, F>|
        #![trigger side_stem_drawn(side, end, stem, child_thickness, producer, made)]
        side_stem_drawn(side, end, stem, child_thickness, producer, made)
            && branch_from(branch, side, child_depth, producer, true)
}

/// Whether the first `count` of `branchs` are the side branches that
/// `producer` grows from `end` of a branch grown from `stem`: `count` is a
/// count it can give, and each is as `side_from` says.
pub open spec fn sides_from<Pos, F, C, P: BranchProducer<Position = Pos, Scalar = F, Color = C>>(
    branchs: Seq<Branch<BranchShape<Pos, F>, LeafShape<Pos, F, C>>>,
    count: int,
    end: Pos,
    stem: Stem<Pos, F>,
    child_thickness: F,
    child_depth: u8,
    producer: &P,
) -> bool
    decreases branchs, 4nat,
{
    &&& 0 <= count <= branchs.len()
    &&& call_ensures(P::get_child_branch_count, (producer,), count as usize)
    &&& forall|i: int|
        0 <= i < count ==> side_from(
            #[trigger] branchs[i],
            end,
            stem,
            child_thickness,
            child_depth,
            producer,
            branchs.subrange(0, i),
        )
}

/// Whether `children` are what `producer` puts at `end` of a branch grown
/// from `stem` with depth `depth`, given the main and side thicknesses and
/// depths. When `main_depth` is over 1: side branches as `sides_from` says,
/// then the main child as `main_from` says. When it is 0: a bunch of leaves
/// from the bunch producer it hands out, around `end`. When it is 1: the
/// main child alone.
pub open spec fn children_from<Pos, F, C, P: BranchProducer<Position = Pos, Scalar = F, Color = C>>(
    children: BranchChildren<BranchShape<Pos, F>, LeafShape<Pos, F, C>>,
    end: Pos,
    stem: Stem<Pos, F>,
    depth: u8,
    main_thickness: F,
    child_thickness: F,
    main_depth: u8,
    child_depth: u8,
    producer: &P,
) -> bool
    decreases children, 0nat,
{
    if main_depth > 1 {
        &&& children matches BranchChildren::Branchs(branchs)
        &&& branchs@.len() >= 1
        &&& sides_from(branchs@, branchs@.len() - 1, end, stem, child_thickness, child_depth, producer)
        &&& main_from(
            branchs@[branchs@.len() - 1],
            end,
            stem,
            main_thickness,
            main_depth,
            producer,
            branchs@.subrange(0, branchs@.len() - 1),
        )
    } else if main_depth < 1 {
        &&& children matches BranchChildren::Leaves(leaves)
        &&& exists|bunch: &P::LeafBunch|
            #![trigger call_ensures(P::get_leaf_bunch_producer, (producer,), bunch)]
            call_ensures(P::get_leaf_bunch_producer, (producer,), bunch) && bunch_from(leaves@, end, bunch)
    } else {
        &&& children matches BranchChildren::Branchs(branchs)
        &&& branchs@.len() == 1
        &&& main_from(branchs@[0], end, stem, main_thickness, main_depth, producer, Seq::empty())
    }
}

/// Whether `branch` has the shape and growth of a side branch growing from
/// `end` of a branch grown from `stem`, drawn after the side branches `made`:
/// it starts at `end`, with the length and angle of the stem drawn for it
/// once those were there (a side length and a side angle asked of `producer`
/// for it alone), the given thickness, a curve the producer can give, and a
/// growth the producer can give for that length, made fully dormant.
pub open spec fn side_shaped<Pos, F, C, P: BranchProducer<Position = Pos, Scalar = F, Color = C>>(
    branch: Branch<BranchShape<Pos, F>, LeafShape<Pos, F, C>>,
    end: Pos,
    stem: Stem<Pos, F>,
    child_thickness: F,
    producer: &P,
    made: Seq<Branch<BranchShape<Pos, F>, LeafShape<Pos, F, C>>>,
) -> bool {
    exists|side: Stem<Pos, F>|
        #![trigger side_stem_drawn(side, end, stem, child_thickness, producer, made)]
        {
            &&& side_stem_drawn(side, end, stem, child_thickness, producer, made)
            &&& call_ensures(P::get_child_length, (producer, stem.length), side.length)
            &&& call_ensures(P::get_child_angle, (producer, stem.angle), side.angle)
            &&& branch.shape.position == end
            &&& branch.shape.length == side.length
            &&& branch.shape.angle == side.angle
            &&& branch.shape.thickness == child_thickness
            &&& call_ensures(P::get_curve, (producer,), branch.shape.curve)
            &&& growth_from(branch.growth, side.length, producer, true)
            &&& branch.growth@.dormancy == GROWTH_MAX
        }
}

/// Whether `branch` has the shape and growth of the main child growing from
/// `end` of a branch grown from `stem`, drawn after the side branches
/// `sides`: it starts at `end`, with the length and angle of the stem drawn
/// for it once those were there (a main length and a main angle asked of
/// `producer`), the given thickness, a curve the producer can give, and a
/// growth the producer can give for that length, as given.
pub open spec fn main_shaped<Pos, F, C, P: BranchProducer<Position = Pos, Scalar = F, Color = C>>(
    branch: Branch<BranchShape<Pos, F>, LeafShape<Pos, F, C>>,
    end: Pos,
    stem: Stem<Pos, F>,
    main_thickness: F,
    producer: &P,
    sides: Seq<Branch<BranchShape<Pos, F>, LeafShape<Pos, F, C>>>,
) -> bool {
    exists|main: Stem<Pos, F>|
        #![trigger main_stem_drawn(main, end, stem, main_thickness, producer, sides)]
        {
            &&& main_stem_drawn(main, end, stem, main_thickness, producer, sides)
            &&& call_ensures(P::get_main_length, (producer, stem.length), main.length)
            &&& call_ensures(P::get_main_angle, (producer, stem.angle), main.angle)
            &&& branch.shape.position == end
            &&& branch.shape.length == main.length
            &&& branch.shape.angle == main.angle
            &&& branch.shape.thickness == main_thickness
            &&& call_ensures(P::get_curve, (producer,), branch.shape.curve)
            &&& call_ensures(P::get_growth, (producer, main.length), branch.growth)
        }
}

/// Child branches are drawn one by one, in order: where the main child has
/// more than one level, the children are branches, every one but the last
/// a side branch and the last the main child. Side branch `i` has the shape
/// and growth drawn for it once the side branches before it were there (as
/// `side_shaped` says), so no two side branches share a drawn length or
/// angle; the main child has those drawn for it once all side branches were
/// there (as `main_shaped` says).
pub proof fn lemma_side_branches_drawn_apart<Pos, F, C, P: BranchProducer<Position = Pos, Scalar = F, Color = C>>(
    children: BranchChildren<BranchShape<Pos, F>, LeafShape<Pos, F, C>>,
    end: Pos,
    stem: Stem<Pos, F>,
    depth: u8,
    main_thickness: F,
    child_thickness: F,
    main_depth: u8,
    child_depth: u8,
    producer: &P,
)
    requires
        main_depth > 1,
        children_from(children, end, stem, depth, main_thickness, child_thickness, main_depth, child_depth, producer),
    ensures
        children is Branchs,
        children->Branchs_0@.len() >= 1,
        forall|i: int|
            0 <= i < children->Branchs_0@.len() - 1 ==> side_shaped(
                #[trigger] children->Branchs_0@[i],
                end,
                stem,
                child_thickness,
                producer,
                children->Branchs_0@.subrange(0, i),
            ),
        main_shaped(
            children->Branchs_0@[children->Branchs_0@.len() - 1],
            end,
            stem,
            main_thickness,
            producer,
            children->Branchs_0@.subrange(0, children->Branchs_0@.len() - 1),
        ),
{
    let branchs = children->Branchs_0;
    assert forall|i: int| 0 <= i < branchs@.len() - 1 implies side_shaped(
        #[trigger] branchs@[i],
        end,
        stem,
        child_thickness,
        producer,
        branchs@.subrange(0, i),
    ) by {
        let made = branchs@.subrange(0, i);
        assert(side_from(branchs@[i], end, stem, child_thickness, child_depth, producer, made));
        let side = choose|side: Stem<Pos, F>|
            #![trigger side_stem_drawn(side, end, stem, child_thickness, producer, made)]
            side_stem_drawn(side, end, stem, child_thickness, producer, made)
                && branch_from(branchs@[i], side, child_depth, producer, true);
        let given = choose|given: Growth|
            #![trigger call_ensures(P::get_growth, (producer, side.length), given)]
            call_ensures(P::get_growth, (producer, side.length), given)
                && branchs@[i].growth@ == (GrowthView { dormancy: GROWTH_MAX, ..given@ });
        assert(side_stem_drawn(side, end, stem, child_thickness, producer, made));
    }
    let last = branchs@.len() - 1;
    let sides = branchs@.subrange(0, last);
    let main = choose|main: Stem<Pos, F>|
        #![trigger main_stem_drawn(main, end, stem, main_thickness, producer, sides)]
        main_stem_drawn(main, end, stem, main_thickness, producer, sides)
            && branch_from(branchs@[last], main, main_depth, producer, false);
    assert(main_stem_drawn(main, end, stem, main_thickness, producer, sides));
}

/// A branch generated for some depth also fits any larger depth.
pub proof fn lemma_branch_built_monotone<B, L>(branch: Branch<B, L>, depth: nat, larger: nat)
    requires
        branch_built(branch, depth),
        depth <= larger,
    ensures
        branch_built(branch, larger),
    decreases branch,
{
    match branch.children {
        BranchChildren::Branchs(branchs) => {
            assert forall|i: int| 0 <= i < branchs@.len() implies branch_built(
                #[trigger] branchs@[i],
                (larger - 1) as nat,
            ) by {
                assert(decreases_to!(branch => branchs@[i]));
                lemma_branch_built_monotone(branchs@[i], (depth - 1) as nat, (larger - 1) as nat);
            }
        },
        _ => {},
    }
}

/// Growing by one unit never leaves the range of a growth.
pub proof fn lemma_branch_can_grow_by_one<B, L>(branch: Branch<B, L>)
    ensures
        branch_can_grow(branch, 1),
    decreases branch, 0nat,
{
    if branch.growth@.fully_grown() {
        lemma_children_can_grow_by_one(branch.children);
    }
}

/// Growing children by one unit never leaves the range of a growth.
pub proof fn lemma_children_can_grow_by_one<B, L>(children: BranchChildren<B, L>)
    ensures
        children_can_grow(children, 1),
    decreases children, 1nat,
{
    match children {
        BranchChildren::Leaves(_) => {},
        BranchChildren::Branchs(branchs) => {
            assert forall|i: int| 0 <= i < branchs@.len() implies branch_can_grow(#[trigger] branchs@[i], 1) by {
                assert(decreases_to!(children => branchs@[i]));
                lemma_branch_can_grow_by_one(branchs@[i]);
            }
        },
        BranchChildren::Mixed(_, branchs) => {
            assert forall|i: int| 0 <= i < branchs@.len() implies branch_can_grow(#[trigger] branchs@[i], 1) by {
                assert(decreases_to!(children => branchs@[i]));
                lemma_branch_can_grow_by_one(branchs@[i]);
            }
        },
    }
}

/// Grows every branch of `branchs` in turn.
fn grow_branch_list<B, L>(branchs: &mut Vec<Branch<B, L>>, factors: u16)
    requires
        forall|i: int|
            0 <= i < old(branchs)@.len() ==> branch_can_grow(#[trigger] old(branchs)@[i], factors),
    ensures
        final(branchs)@.len() == old(branchs)@.len(),
        forall|i: int|
            0 <= i < old(branchs)@.len() ==> branch_grows_into(
                #[trigger] old(branchs)@[i],
                final(branchs)@[i],
                factors,
            ),
    decreases *old(branchs), 2nat,
{
    let n = branchs.len();
    for i in 0..n
        invariant
            n == old(branchs)@.len(),
            branchs@.len() == n,
            forall|j: int| 0 <= j < n ==> branch_can_grow(#[trigger] old(branchs)@[j], factors),
            forall|j: int|
                0 <= j < i ==> branch_grows_into(#[trigger] old(branchs)@[j], branchs@[j], factors),
            forall|j: int| i <= j < n ==> #[trigger] branchs@[j] == old(branchs)@[j],
    {
        assert(decreases_to!(*old(branchs) => old(branchs)@[i as int]));
        branchs[i].grow_branch(factors);
    }
}

/// Whether every branch of `branchs` is fully grown.
fn branch_list_fully_grown<B, L>(branchs: &Vec<Branch<B, L>>) -> (b: bool)
    ensures
        b == forall|i: int| 0 <= i < branchs@.len() ==> branch_fully_grown(#[trigger] branchs@[i]),
    decreases *branchs, 2nat,
{
    let n = branchs.len();
    for i in 0..n
        invariant
            n == branchs@.len(),
            forall|j: int| 0 <= j < i ==> branch_fully_grown(#[trigger] branchs@[j]),
    {
        assert(decreases_to!(*branchs => branchs@[i as int]));
        if !branchs[i].branch_is_fully_grown() {
            return false;
        }
    }
    true
}

impl<B, L> BranchChildren<B, L> {
    fn grow_children(&mut self, factors: u16)
        requires
            children_can_grow(*old(self), factors),
        ensures
            children_grow_into(*old(self), *final(self), factors),
        decreases *old(self), 1nat,
    {
        match self {
            BranchChildren::Leaves(leaves) => leaves.grow(factors),
            BranchChildren::Branchs(branchs) => grow_branch_list(branchs, factors),
            BranchChildren::Mixed(leaves, branchs) => {
                grow_branch_list(branchs, factors);
                leaves.grow(factors);
            },
        }
    }

    fn children_are_fully_grown(&self) -> (b: bool)
        ensures
            b == children_fully_grown(*self),
        decreases *self, 1nat,
    {
        match self {
            BranchChildren::Leaves(leaves) => leaves.is_fully_grown(),
            BranchChildren::Branchs(branchs) => branch_list_fully_grown(branchs),
            BranchChildren::Mixed(leaves, branchs) => leaves.is_fully_grown()
                && branch_list_fully_grown(branchs),
        }
    }
}

impl<B, L> Branch<B, L> {
    /// A branch from its parts.
    pub fn new(shape: B, children: BranchChildren<B, L>, growth: Growth) -> (branch: Self)
        ensures
            branch.shape == shape,
            branch.children == children,
            branch.growth == growth,
    {
        Self { shape, children, growth }
    }

    /// The growth of the branch itself.
    pub fn get_growth(&self) -> (growth: &Growth)
        ensures
            *growth == self.growth,
    {
        &self.growth
    }

    /// The growth of the branch itself, to change it.
    pub fn get_growth_mut(&mut self) -> (growth: &mut Growth)
        ensures
            *growth == old(self).growth,
            final(self).growth == *final(growth),
            final(self).shape == old(self).shape,
            final(self).children == old(self).children,
    {
        &mut self.growth
    }

    fn grow_branch(&mut self, factors: u16)
        requires
            branch_can_grow(*old(self), factors),
        ensures
            branch_grows_into(*old(self), *final(self), factors),
        decreases *old(self), 0nat,
    {
        if self.growth.is_fully_grown() {
            self.children.grow_children(factors);
        } else {
            self.get_growth_mut().grow_factors(factors);
        }
    }

    fn branch_is_fully_grown(&self) -> (b: bool)
        ensures
            b == branch_fully_grown(*self),
        decreases *self, 0nat,
    {
        self.children.children_are_fully_grown()
    }
}

impl<Pos: Copy, F: Copy, C> Branch<BranchShape<Pos, F>, LeafShape<Pos, F, C>> {
    /// A side branch: generated like any branch, but fully dormant, so that
    /// it starts growing only after a delay.
    fn new_child_branch<P: BranchProducer<Position = Pos, Scalar = F, Color = C>>(
        stem: Stem<Pos, F>,
        depth: u8,
        producer: &P,
    ) -> (branch: Self)
        ensures
            branch_built(branch, depth as nat),
            branch.growth@.dormancy == GROWTH_MAX,
            branch_from(branch, stem, depth, producer, true),
        decreases depth, 4nat,
    {
        let mut child = Self::new_nested(stem.position, stem.length, stem.angle, stem.thickness, depth, producer);
        let ghost given = child.growth;

        // Like animation delay
        child.growth.set_dormancy(Growth::MAX);

        assert(call_ensures(P::get_growth, (producer, stem.length), given)
            && child.growth@ == (GrowthView { dormancy: GROWTH_MAX, ..given@ }));
        child
    }

    /// The side branches growing from `end`: as many as the producer asks
    /// for, each generated for `depth` levels with the given thickness.
    fn new_child_branches<P: BranchProducer<Position = Pos, Scalar = F, Color = C>>(
        end: Pos,
        stem: Stem<Pos, F>,
        thickness: F,
        depth: u8,
        producer: &P,
    ) -> (branchs: Vec<Self>)
        ensures
            forall|i: int| 0 <= i < branchs@.len() ==> branch_built(#[trigger] branchs@[i], depth as nat),
            forall|i: int| 0 <= i < branchs@.len() ==> (#[trigger] branchs@[i]).growth@.dormancy == GROWTH_MAX,
            sides_from(branchs@, branchs@.len() as int, end, stem, thickness, depth, producer),
        decreases depth, 6nat,
    {
        let child_count = producer.get_child_branch_count();
        Self::new_child_branches_of(child_count, end, stem, thickness, depth, producer)
    }

    /// `child_count` side branches growing from `end`, one after another,
    /// each starting at `end`, with a side length and angle that `producer`
    /// gives for the stem's, drawn for that side branch alone by
    /// `draw_side_stem`, the given thickness, generated for `depth` levels
    /// and fully dormant.
    fn new_child_branches_of<P: BranchProducer<Position = Pos, Scalar = F, Color = C>>(
        child_count: usize,
        end: Pos,
        stem: Stem<Pos, F>,
        thickness: F,
        depth: u8,
        producer: &P,
    ) -> (branchs: Vec<Self>)
        ensures
            branchs@.len() == child_count,
            forall|i: int| 0 <= i < branchs@.len() ==> branch_built(#[trigger] branchs@[i], depth as nat),
            forall|i: int| 0 <= i < branchs@.len() ==> (#[trigger] branchs@[i]).growth@.dormancy == GROWTH_MAX,
            forall|i: int|
                0 <= i < branchs@.len() ==> side_from(
                    #[trigger] branchs@[i],
                    end,
                    stem,
                    thickness,
                    depth,
                    producer,
                    branchs@.subrange(0, i),
                ),
        decreases depth, 5nat,
    {
        // Plus one for main child branch
        let mut branchs = Vec::with_capacity(child_count.saturating_add(1));

        for i in 0..child_count
            invariant
                branchs@.len() == i,
                forall|j: int| 0 <= j < branchs@.len() ==> branch_built(#[trigger] branchs@[j], depth as nat),
                forall|j: int| 0 <= j < branchs@.len() ==> (#[trigger] branchs@[j]).growth@.dormancy == GROWTH_MAX,
                forall|j: int|
                    0 <= j < branchs@.len() ==> side_from(
                        #[trigger] branchs@[j],
                        end,
                        stem,
                        thickness,
                        depth,
                        producer,
                        branchs@.subrange(0, j),
                    ),
        {
            let ghost before = branchs@;
            let child_stem = draw_side_stem(end, stem, thickness, producer, Ghost(branchs@));
            let branch = Self::new_child_branch(child_stem, depth, producer);
            assert(side_stem_drawn(child_stem, end, stem, thickness, producer, before)
                && branch_from(branch, child_stem, depth, producer, true));

            branchs.push(branch);
            assert forall|j: int| 0 <= j <= i implies #[trigger] branchs@.subrange(0, j) == before.subrange(0, j) by {
                assert(branchs@.subrange(0, j) =~= before.subrange(0, j));
            }
            assert(before.subrange(0, i as int) =~= before);
        }

        branchs
    }

    /// The main child, continuing a branch grown from `stem` from its end
    /// `end` after the side branches `sides`: with the main length and angle
    /// that `producer` gives for the stem's, the given thickness, generated
    /// for `depth` levels.
    fn new_main_branch<P: BranchProducer<Position = Pos, Scalar = F, Color = C>>(
        end: Pos,
        stem: Stem<Pos, F>,
        thickness: F,
        depth: u8,
        producer: &P,
        sides: Ghost<Seq<Self>>,
    ) -> (branch: Self)
        ensures
            branch_built(branch, depth as nat),
            main_from(branch, end, stem, thickness, depth, producer, sides@),
        decreases depth, 4nat,
    {
        let main_stem = draw_main_stem(end, stem, thickness, producer, sides);

        let branch = Self::new_nested(end, main_stem.length, main_stem.angle, thickness, depth, producer);
        assert(main_stem_drawn(main_stem, end, stem, thickness, producer, sides@)
            && branch_from(branch, main_stem, depth, producer, false));
        branch
    }

    /// What grows out of the end of a branch grown from `stem` with depth
    /// `depth` (at least 1): asks the producer where it ends, the main and side
    /// thicknesses and the main and side depths, then builds as
    /// `new_children_with` says.
    fn new_children<P: BranchProducer<Position = Pos, Scalar = F, Color = C>>(
        stem: Stem<Pos, F>,
        depth: u8,
        producer: &P,
    ) -> (children: BranchChildren<BranchShape<Pos, F>, LeafShape<Pos, F, C>>)
        requires
            depth > 0,
        ensures
            children_built(children, depth as nat),
            exists|main_depth: u8| main_depth < depth && #[trigger] children_shaped(children, main_depth),
            children_from_stem(children, stem, depth, producer),
        decreases depth, 2nat,
    {
        let end_position = producer.get_end_position(&stem);

        let main_thickness = producer.get_main_thickness(stem.thickness);
        let child_thickness = producer.get_child_thickness(stem.thickness);

        let main_depth = producer.get_main_depth(depth);
        let child_depth = producer.get_child_depth(depth);

        let children = Self::new_children_with(
            end_position,
            stem,
            depth,
            main_thickness,
            child_thickness,
            main_depth,
            child_depth,
            producer,
        );
        assert(main_depth < depth && children_shaped(children, main_depth));
        assert(call_ensures(P::get_end_position, (producer, &stem), end_position)
            && call_ensures(P::get_main_thickness, (producer, stem.thickness), main_thickness)
            && call_ensures(P::get_child_thickness, (producer, stem.thickness), child_thickness)
            && call_ensures(P::get_main_depth, (producer, depth), main_depth)
            && call_ensures(P::get_child_depth, (producer, depth), child_depth)
            && children_from(
            children,
            end_position,
            stem,
            depth,
            main_thickness,
            child_thickness,
            main_depth,
            child_depth,
            producer,
        ));
        children
    }

    /// What grows out of the end `end_position` of a branch grown from
    /// `stem` with depth `depth`, given the producer's main and side
    /// thicknesses and depths: where the main child still has more than one
    /// level, side branches (as many as the producer asks for, fully
    /// dormant) and then the main child; where it has none, a bunch of
    /// leaves around the end; else the main child alone. Every child branch
    /// starts at `end_position`.
    pub fn new_children_with<P: BranchProducer<Position = Pos, Scalar = F, Color = C>>(
        end_position: Pos,
        stem: Stem<Pos, F>,
        depth: u8,
        main_thickness: F,
        child_thickness: F,
        main_depth: u8,
        child_depth: u8,
        producer: &P,
    ) -> (children: BranchChildren<BranchShape<Pos, F>, LeafShape<Pos, F, C>>)
        requires
            main_depth < depth,
            main_depth > 1 ==> child_depth < depth,
        ensures
            children_shaped(children, main_depth),
            children_built(children, depth as nat),
            children_from(
                children,
                end_position,
                stem,
                depth,
                main_thickness,
                child_thickness,
                main_depth,
                child_depth,
                producer,
            ),
        decreases depth, 1nat,
    {
        // Continue the branch over children
        if main_depth > 1 {
            let mut child_branchs = Self::new_child_branches(end_position, stem, child_thickness, child_depth, producer);
            let ghost sides = child_branchs@;

            let main_branch = Self::new_main_branch(
                end_position,
                stem,
                main_thickness,
                main_depth,
                producer,
                Ghost(child_branchs@),
            );
            child_branchs.push(main_branch);

            proof {
                let n = sides.len() as int;
                assert(child_branchs@.len() - 1 == n);
                assert forall|i: int| 0 <= i < n implies side_from(
                    #[trigger] child_branchs@[i],
                    end_position,
                    stem,
                    child_thickness,
                    child_depth,
                    producer,
                    child_branchs@.subrange(0, i),
                ) by {
                    assert(child_branchs@[i] == sides[i]);
                    assert(child_branchs@.subrange(0, i) =~= sides.subrange(0, i));
                }
                assert(child_branchs@.subrange(0, n) =~= sides);
                assert forall|i: int| 0 <= i < child_branchs@.len() implies branch_built(
                    #[trigger] child_branchs@[i],
                    (depth - 1) as nat,
                ) by {
                    if i < child_branchs@.len() - 1 {
                        assert(child_branchs@[i] == sides[i]);
                        lemma_branch_built_monotone(child_branchs@[i], child_depth as nat, (depth - 1) as nat);
                    } else {
                        lemma_branch_built_monotone(child_branchs@[i], main_depth as nat, (depth - 1) as nat);
                    }
                }
            }
            BranchChildren::Branchs(child_branchs)
        // End of the branch, place leaves
        } else if main_depth < 1 {
            let bunch_producer = producer.get_leaf_bunch_producer();
            let leaves = Leaf::new_bunch(end_position, bunch_producer);
            assert(call_ensures(P::get_leaf_bunch_producer, (producer,), bunch_producer)
                && bunch_from(leaves@, end_position, bunch_producer));
            BranchChildren::Leaves(leaves)
        // Before end continue as one branch
        } else {
            let main_branch = Self::new_main_branch(
                end_position,
                stem,
                main_thickness,
                main_depth,
                producer,
                Ghost(Seq::empty()),
            );
            let mut branchs = Vec::new();
            branchs.push(main_branch);
            proof {
                lemma_branch_built_monotone(branchs@[0], main_depth as nat, (depth - 1) as nat);
            }
            BranchChildren::Branchs(branchs)
        }
    }

    /// A branch starting at `position` with the given length, angle and
    /// thickness, generated for `depth` levels: its curve and its growth (for
    /// its length) come from `producer`; at depth 0 it carries nothing, else
    /// its children are generated as `new_children` says.
    pub fn new_nested<P: BranchProducer<Position = Pos, Scalar = F, Color = C>>(
        position: Pos,
        length: F,
        angle: F,
        thickness: F,
        depth: u8,
        producer: &P,
    ) -> (branch: Self)
        ensures
            branch_built(branch, depth as nat),
            branch_from(branch, Stem { position, length, angle, thickness }, depth, producer, false),
        decreases depth, 3nat,
    {
        let curve = producer.get_curve();
        let growth = producer.get_growth(length);

        let stem = Stem { position, length, angle, thickness };
        let children = if depth == 0 {
            // Dont dig
            BranchChildren::Leaves(Vec::new())
        } else {
            Self::new_children(stem, depth, producer)
        };

        Self { shape: BranchShape { position, length, angle, thickness, curve }, children, growth }
    }
}

// ----- copies -----

/// Whether `copy` is a copy of `branch`: a clone of its shape, the same
/// growth, and a copy of its children.
pub open spec fn branch_cloned<B: Clone, L: Clone>(branch: Branch<B, L>, copy: Branch<B, L>) -> bool
    decreases branch,
{
    &&& cloned(branch.shape, copy.shape)
    &&& copy.growth == branch.growth
    &&& children_cloned(branch.children, copy.children)
}

/// Whether `copy` is a copy of `branchs`, branch by branch.
pub open spec fn branchs_cloned<B: Clone, L: Clone>(branchs: Seq<Branch<B, L>>, copy: Seq<Branch<B, L>>) -> bool
    decreases branchs,
{
    &&& copy.len() == branchs.len()
    &&& forall|i: int| 0 <= i < branchs.len() ==> branch_cloned(#[trigger] branchs[i], copy[i])
}

/// Whether `copy` is a copy of `children`: of the same kind, with every leaf
/// and every branch copied, in order.
pub open spec fn children_cloned<B: Clone, L: Clone>(children: BranchChildren<B, L>, copy: BranchChildren<B, L>) -> bool
    decreases children,
{
    match children {
        BranchChildren::Leaves(leaves) => match copy {
            BranchChildren::Leaves(copy_leaves) => leaves_cloned(leaves@, copy_leaves@),
            _ => false,
        },
        BranchChildren::Branchs(branchs) => match copy {
            BranchChildren::Branchs(copy_branchs) => {
                &&& copy_branchs@.len() == branchs@.len()
                &&& forall|i: int|
                    0 <= i < branchs@.len() ==> branch_cloned(#[trigger] branchs@[i], copy_branchs@[i])
            },
            _ => false,
        },
        BranchChildren::Mixed(leaves, branchs) => match copy {
            BranchChildren::Mixed(copy_leaves, copy_branchs) => {
                &&& leaves_cloned(leaves@, copy_leaves@)
                &&& copy_branchs@.len() == branchs@.len()
                &&& forall|i: int|
                    0 <= i < branchs@.len() ==> branch_cloned(#[trigger] branchs@[i], copy_branchs@[i])
            },
            _ => false,
        },
    }
}

impl<B: Clone, L: Clone> Branch<B, L> {
    /// A copy of the branch and everything on it.
    fn clone_branch(&self) -> (copy: Self)
        ensures
            branch_cloned(*self, copy),
        decreases *self, 0nat,
    {
        Branch { shape: self.shape.clone(), children: self.children.clone_children(), growth: self.growth.clone() }
    }
}

impl<B: Clone, L: Clone> BranchChildren<B, L> {
    /// A copy of the children and everything on them.
    fn clone_children(&self) -> (copy: Self)
        ensures
            children_cloned(*self, copy),
        decreases *self, 1nat,
    {
        match self {
            BranchChildren::Leaves(leaves) => BranchChildren::Leaves(clone_leaves(leaves)),
            BranchChildren::Branchs(branchs) => BranchChildren::Branchs(clone_branch_list(branchs)),
            BranchChildren::Mixed(leaves, branchs) => BranchChildren::Mixed(clone_leaves(leaves), clone_branch_list(branchs)),
        }
    }
}

/// A copy of every branch of `branchs`, in order.
pub(crate) fn clone_branch_list<B: Clone, L: Clone>(branchs: &Vec<Branch<B, L>>) -> (copy: Vec<Branch<B, L>>)
    ensures
        branchs_cloned(branchs@, copy@),
    decreases *branchs, 2nat,
{
    let mut copy = Vec::with_capacity(branchs.len());
    for i in 0..branchs.len()
        invariant
            copy@.len() == i,
            forall|j: int| 0 <= j < i ==> branch_cloned(#[trigger] branchs@[j], copy@[j]),
    {
        assert(decreases_to!(*branchs => branchs@[i as int]));
        copy.push(branchs[i].clone_branch());
    }
    copy
}

impl<B: Clone, L: Clone> Clone for Branch<B, L> {
    /// A copy of the branch and everything on it.
    fn clone(&self) -> (copy: Self)
        ensures
            branch_cloned(*self, copy),
    {
        self.clone_branch()
    }
}

impl<B: Clone, L: Clone> Clone for BranchChildren<B, L> {
    /// A copy of the children and everything on them.
    fn clone(&self) -> (copy: Self)
        ensures
            children_cloned(*self, copy),
    {
        self.clone_children()
    }
}

/// A copy of a generated branch is the same branch on top: the same shape
/// (position, length, angle, thickness and curve) and the same growth
/// (factor, amount and dormancy), and its children are copies of the
/// branch's own.
pub proof fn lemma_branch_copy_same<Pos: Copy, F: Copy, C: Clone>(
    branch: Branch<BranchShape<Pos, F>, LeafShape<Pos, F, C>>,
    copy: Branch<BranchShape<Pos, F>, LeafShape<Pos, F, C>>,
)
    requires
        branch_cloned(branch, copy),
    ensures
        copy.shape == branch.shape,
        copy.growth@ == branch.growth@,
        children_cloned(branch.children, copy.children),
{
}

impl<B, L> Growable for Branch<B, L> {
    open spec fn can_grow(&self, factors: u16) -> bool {
        branch_can_grow(*self, factors)
    }

    open spec fn grows_into(&self, next: &Self, factors: u16) -> bool {
        branch_grows_into(*self, *next, factors)
    }

    open spec fn fully_grown(&self) -> bool {
        branch_fully_grown(*self)
    }

    fn grow(&mut self, factors: u16) {
        self.grow_branch(factors);
    }

    fn is_fully_grown(&self) -> (b: bool) {
        self.branch_is_fully_grown()
    }
}

impl<B, L> Growable for BranchChildren<B, L> {
    open spec fn can_grow(&self, factors: u16) -> bool {
        children_can_grow(*self, factors)
    }

    open spec fn grows_into(&self, next: &Self, factors: u16) -> bool {
        children_grow_into(*self, *next, factors)
    }

    open spec fn fully_grown(&self) -> bool {
        children_fully_grown(*self)
    }

    fn grow(&mut self, factors: u16) {
        self.grow_children(factors);
    }

    fn is_fully_grown(&self) -> (b: bool) {
        self.children_are_fully_grown()
    }
}

impl<B, L> Growable for Vec<Branch<B, L>> {
    open spec fn can_grow(&self, factors: u16) -> bool {
        forall|i: int| 0 <= i < self@.len() ==> branch_can_grow(#[trigger] self@[i], factors)
    }

    open spec fn grows_into(&self, next: &Self, factors: u16) -> bool {
        &&& next@.len() == self@.len()
        &&& forall|i: int|
            0 <= i < self@.len() ==> branch_grows_into(#[trigger] self@[i], next@[i], factors)
    }

    open spec fn fully_grown(&self) -> bool {
        forall|i: int| 0 <= i < self@.len() ==> branch_fully_grown(#[trigger] self@[i])
    }

    fn grow(&mut self, factors: u16) {
        grow_branch_list(self, factors);
    }

    fn is_fully_grown(&self) -> (b: bool) {
        branch_list_fully_grown(self)
    }
}


} // verus!
