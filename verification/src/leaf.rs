//! Leaves: the parts at the ends of the branches.
use vstd::prelude::*;

use crate::growth::{Growable, Growth, GROWTH_MAX};

verus! {

/// Procedural generation of a single leaf.
pub trait LeafProducer {
    /// Where a leaf stands.
    type Position: Copy;
    /// Lengths: the radius of a leaf.
    type Scalar: Copy;
    /// How the color of a leaf varies between the theme's base colors.
    type Color;

    /// The color variant of a new leaf.
    fn get_color_variant(&self) -> Self::Color;

    /// The initial growth of a new leaf of the given radius.
    fn get_growth(&self, radius: Self::Scalar) -> Growth;

    /// The radius of a new leaf.
    fn get_radius(&self) -> Self::Scalar;
}

/// Procedural generation of a bunch of leaves around a point.
pub trait LeafBunchProducer {
    /// Where a leaf stands.
    type Position: Copy;
    /// Lengths: the radius of a leaf.
    type Scalar: Copy;
    /// How the color of a leaf varies.
    type Color;
    /// What makes each single leaf.
    type Leaves: LeafProducer<Position = Self::Position, Scalar = Self::Scalar, Color = Self::Color>;

    /// What makes each single leaf.
    fn get_leaf_producer(&self) -> &Self::Leaves;

    /// How many leaves the bunch has.
    fn get_count(&self) -> usize;

    /// Where the next leaf goes: scattered around the bunch's center at some
    /// angle and distance.
    fn get_scatter_position(&self, center: Self::Position) -> Self::Position;
}

/// Where and how a leaf is drawn.
#[derive(Debug)]
pub struct LeafShape<P, F, C> {
    /// Center of the leaf.
    pub position: P,
    /// Full radius of the leaf.
    pub radius: F,
    /// Color of the leaf between the theme's base colors.
    pub color_variant: C,
}

impl<P: Copy, F: Copy, C: Clone> Clone for LeafShape<P, F, C> {
    /// The same position and radius, and a clone of the color variant.
    fn clone(&self) -> (copy: Self)
        ensures
            copy.position == self.position,
            copy.radius == self.radius,
            cloned(self.color_variant, copy.color_variant),
    {
        LeafShape { position: self.position, radius: self.radius, color_variant: self.color_variant.clone() }
    }
}

/// A copy of a leaf stands where the leaf stands, with its radius and its
/// growth, and a clone of its color variant.
pub proof fn lemma_leaf_copy_same<P: Copy, F: Copy, C: Clone>(
    leaf: Leaf<LeafShape<P, F, C>>,
    copy: Leaf<LeafShape<P, F, C>>,
)
    requires
        leaf_cloned(leaf, copy),
    ensures
        copy.shape.position == leaf.shape.position,
        copy.shape.radius == leaf.shape.radius,
        cloned(leaf.shape.color_variant, copy.shape.color_variant),
        copy.growth@ == leaf.growth@,
{
}

/// A leaf: its shape (where and how it is drawn) and its growth.
#[derive(Debug)]
pub struct Leaf<L> {
    /// Position, radius and color of the leaf.
    pub shape: L,
    /// Growth of the leaf.
    pub growth: Growth,
}

/// Whether `copy` is a copy of `leaf`: a clone of its shape, and the same
/// growth.
pub open spec fn leaf_cloned<L: Clone>(leaf: Leaf<L>, copy: Leaf<L>) -> bool {
    &&& cloned(leaf.shape, copy.shape)
    &&& copy.growth == leaf.growth
}

/// Whether `copy` is a copy of `leaves`, leaf by leaf.
pub open spec fn leaves_cloned<L: Clone>(leaves: Seq<Leaf<L>>, copy: Seq<Leaf<L>>) -> bool {
    &&& copy.len() == leaves.len()
    &&& forall|i: int| 0 <= i < leaves.len() ==> leaf_cloned(#[trigger] leaves[i], copy[i])
}

impl<L: Clone> Clone for Leaf<L> {
    /// A copy of the leaf: its shape cloned, its growth as it stands.
    fn clone(&self) -> (copy: Self)
        ensures
            leaf_cloned(*self, copy),
    {
        Leaf { shape: self.shape.clone(), growth: self.growth.clone() }
    }
}

/// A copy of every leaf of `leaves`, in order.
pub(crate) fn clone_leaves<L: Clone>(leaves: &Vec<Leaf<L>>) -> (copy: Vec<Leaf<L>>)
    ensures
        leaves_cloned(leaves@, copy@),
{
    let copy = leaves.clone();
    assert forall|i: int| 0 <= i < leaves@.len() implies leaf_cloned(#[trigger] leaves@[i], copy@[i]) by {
        assert(cloned::<Leaf<L>>(leaves[i], copy[i]));
    }
    copy
}

/// Whether growing a leaf by `factors` units stays within range.
pub open spec fn leaf_can_grow<L>(leaf: Leaf<L>, factors: u16) -> bool {
    leaf.growth@.factor * factors <= GROWTH_MAX
}

/// Growing a leaf grows its own growth by `factors` units of its factor.
pub open spec fn leaf_grows_into<L>(leaf: Leaf<L>, next: Leaf<L>, factors: u16) -> bool {
    &&& next.shape == leaf.shape
    &&& next.growth@ == leaf.growth@.grown(leaf.growth@.factor * factors)
}

/// A leaf is fully grown when its growth is.
pub open spec fn leaf_fully_grown<L>(leaf: Leaf<L>) -> bool {
    leaf.growth@.fully_grown()
}

// ----- what the producers hand out -----

/// Whether `leaf` is a leaf that `producer` makes at `position`: it stands
/// at `position`, its radius and color variant are ones the producer can
/// give, and its growth one it can give for that radius.
pub open spec fn leaf_from<P: LeafProducer>(
    leaf: Leaf<LeafShape<P::Position, P::Scalar, P::Color>>,
    position: P::Position,
    producer: &P,
) -> bool {
    &&& leaf.shape.position == position
    &&& call_ensures(P::get_radius, (producer,), leaf.shape.radius)
    &&& call_ensures(P::get_color_variant, (producer,), leaf.shape.color_variant)
    &&& call_ensures(P::get_growth, (producer, leaf.shape.radius), leaf.growth)
}

/// Whether `leaf` is a leaf that `producer`'s leaf producer `leaf_producer`
/// makes at a scatter position that `producer` can give around `center`.
pub open spec fn leaf_scattered_from<P: LeafBunchProducer>(
    leaf: Leaf<LeafShape<P::Position, P::Scalar, P::Color>>,
    center: P::Position,
    producer: &P,
    leaf_producer: &P::Leaves,
) -> bool {
    exists|position: P::Position|
        #![trigger call_ensures(P::get_scatter_position, (producer, center), position)]
        call_ensures(P::get_scatter_position, (producer, center), position)
            && leaf_from(leaf, position, leaf_producer)
}

/// Whether `leaf` is the leaf that a bunch around `center` drew after the
/// leaves `made`: the value that `scatter_leaf` returned when called once
/// those leaves were there, after asking `producer` for a scatter position of
/// its own and `leaf_producer` for a radius, a color and a growth of its own.
pub open spec fn leaf_drawn<P: LeafBunchProducer>(
    leaf: Leaf<LeafShape<P::Position, P::Scalar, P::Color>>,
    center: P::Position,
    producer: &P,
    leaf_producer: &P::Leaves,
    made: Seq<Leaf<LeafShape<P::Position, P::Scalar, P::Color>>>,
) -> bool {
    call_ensures(scatter_leaf::<P>, (center, producer, leaf_producer, Ghost(made)), leaf)
}

/// Whether `leaves` are `leaf_count` leaves that `producer` scatters around
/// `center`, with the leaf producer it hands out, one after another: leaf `i`
/// was drawn once the leaves before it were there, so each leaf was drawn on
/// its own and in order, at a scatter position asked for it alone, and with
/// a radius, color and growth asked for it alone.
pub open spec fn leaves_scattered_from<P: LeafBunchProducer>(
    leaves: Seq<Leaf<LeafShape<P::Position, P::Scalar, P::Color>>>,
    leaf_count: usize,
    center: P::Position,
    producer: &P,
) -> bool {
    &&& leaves.len() == leaf_count
    &&& exists|leaf_producer: &P::Leaves|
        #![trigger call_ensures(P::get_leaf_producer, (producer,), leaf_producer)]
        call_ensures(P::get_leaf_producer, (producer,), leaf_producer)
            && forall|i: int|
            0 <= i < leaves.len() ==> leaf_drawn(
                #[trigger] leaves[i],
                center,
                producer,
                leaf_producer,
                leaves.subrange(0, i),
            )
}

/// One leaf of a bunch around `center`, drawn after the leaves `made`: a
/// scatter position is asked of `producer`, and a leaf is made there by
/// `leaf_producer`.
pub fn scatter_leaf<P: LeafBunchProducer>(
    center: P::Position,
    producer: &P,
    leaf_producer: &P::Leaves,
    made: Ghost<Seq<Leaf<LeafShape<P::Position, P::Scalar, P::Color>>>>,
) -> (leaf: Leaf<LeafShape<P::Position, P::Scalar, P::Color>>)
    ensures
        leaf_scattered_from(leaf, center, producer, leaf_producer),
{
    let position = producer.get_scatter_position(center);
    let leaf = Leaf::new_with_producer(position, leaf_producer);
    assert(call_ensures(P::get_scatter_position, (producer, center), position)
        && leaf_from(leaf, position, leaf_producer));
    leaf
}

/// Whether `leaves` are a bunch that `producer` makes around `center`: as
/// many as a count it can give, scattered as `leaves_scattered_from` says.
pub open spec fn bunch_from<P: LeafBunchProducer>(
    leaves: Seq<Leaf<LeafShape<P::Position, P::Scalar, P::Color>>>,
    center: P::Position,
    producer: &P,
) -> bool {
    exists|leaf_count: usize|
        #![trigger call_ensures(P::get_count, (producer,), leaf_count)]
        call_ensures(P::get_count, (producer,), leaf_count)
            && leaves_scattered_from(leaves, leaf_count, center, producer)
}

/// Every leaf of a bunch is drawn on its own and in order: there are as many
/// leaves as a count the producer gives, and for the leaf producer it hands
/// out, leaf `i` is what was drawn once the leaves before it were there,
/// standing at the scatter position asked in that draw, with the radius,
/// color and growth asked in that draw.
pub proof fn lemma_bunch_leaves_drawn_apart<P: LeafBunchProducer>(
    leaves: Seq<Leaf<LeafShape<P::Position, P::Scalar, P::Color>>>,
    center: P::Position,
    producer: &P,
)
    requires
        bunch_from(leaves, center, producer),
    ensures
        exists|leaf_count: usize|
            #![trigger call_ensures(P::get_count, (producer,), leaf_count)]
            call_ensures(P::get_count, (producer,), leaf_count) && leaves.len() == leaf_count,
        exists|leaf_producer: &P::Leaves|
            #![trigger call_ensures(P::get_leaf_producer, (producer,), leaf_producer)]
            call_ensures(P::get_leaf_producer, (producer,), leaf_producer)
                && forall|i: int|
                0 <= i < leaves.len() ==> leaf_drawn(#[trigger] leaves[i], center, producer, leaf_producer, leaves.subrange(0, i))
                    && leaf_scattered_from(leaves[i], center, producer, leaf_producer),
{
    let leaf_count = choose|leaf_count: usize|
        #![trigger call_ensures(P::get_count, (producer,), leaf_count)]
        call_ensures(P::get_count, (producer,), leaf_count)
            && leaves_scattered_from(leaves, leaf_count, center, producer);
    let leaf_producer = choose|leaf_producer: &P::Leaves|
        #![trigger call_ensures(P::get_leaf_producer, (producer,), leaf_producer)]
        call_ensures(P::get_leaf_producer, (producer,), leaf_producer)
            && forall|i: int|
            0 <= i < leaves.len() ==> leaf_drawn(#[trigger] leaves[i], center, producer, leaf_producer, leaves.subrange(0, i));
    assert forall|i: int| 0 <= i < leaves.len() implies leaf_drawn(#[trigger] leaves[i], center, producer, leaf_producer, leaves.subrange(0, i))
        && leaf_scattered_from(leaves[i], center, producer, leaf_producer) by {
        assert(leaf_drawn(leaves[i], center, producer, leaf_producer, leaves.subrange(0, i)));
    }
}

impl<Pos: Copy, F: Copy, C> Leaf<LeafShape<Pos, F, C>> {
    /// A new leaf at `position`: its radius, color variant and then its
    /// growth for that radius asked of `producer`.
    pub fn new_with_producer<P: LeafProducer<Position = Pos, Scalar = F, Color = C>>(
        position: Pos,
        producer: &P,
    ) -> (leaf: Self)
        ensures
            leaf_from(leaf, position, producer),
    {
        let radius = producer.get_radius();
        let color_variant = producer.get_color_variant();
        let growth = producer.get_growth(radius);

        Self::new(LeafShape { position, radius, color_variant }, growth)
    }

    /// A bunch of new leaves scattered around `base_position`: as many as
    /// `producer` asks for, one after another.
    pub fn new_bunch<P: LeafBunchProducer<Position = Pos, Scalar = F, Color = C>>(
        base_position: Pos,
        producer: &P,
    ) -> (leaves: Vec<Self>)
        ensures
            bunch_from(leaves@, base_position, producer),
    {
        let leaf_count = producer.get_count();
        let leaves = Self::new_bunch_of(leaf_count, base_position, producer);
        assert(call_ensures(P::get_count, (producer,), leaf_count)
            && leaves_scattered_from(leaves@, leaf_count, base_position, producer));
        leaves
    }

    /// A bunch of `leaf_count` new leaves scattered around `base_position`,
    /// one after another: each leaf is drawn on its own by `scatter_leaf`,
    /// with a scatter position, a radius, a color and a growth asked for it
    /// alone.
    pub fn new_bunch_of<P: LeafBunchProducer<Position = Pos, Scalar = F, Color = C>>(
        leaf_count: usize,
        base_position: Pos,
        producer: &P,
    ) -> (leaves: Vec<Self>)
        ensures
            leaves@.len() == leaf_count,
            leaves_scattered_from(leaves@, leaf_count, base_position, producer),
    {
        let leaf_producer = producer.get_leaf_producer();

        let mut leaves = Vec::with_capacity(leaf_count);

        for i in 0..leaf_count
            invariant
                leaves@.len() == i,
                call_ensures(P::get_leaf_producer, (producer,), leaf_producer),
                forall|j: int|
                    0 <= j < leaves@.len() ==> leaf_drawn(
                        #[trigger] leaves@[j],
                        base_position,
                        producer,
                        leaf_producer,
                        leaves@.subrange(0, j),
                    ),
        {
            let ghost before = leaves@;
            let leaf = scatter_leaf(base_position, producer, leaf_producer, Ghost(leaves@));
            leaves.push(leaf);
            assert forall|j: int| 0 <= j <= i implies #[trigger] leaves@.subrange(0, j) == before.subrange(0, j) by {
                assert(leaves@.subrange(0, j) =~= before.subrange(0, j));
            }
            assert(before.subrange(0, i as int) =~= before);
        }

        leaves
    }
}

impl<L> Leaf<L> {
    /// A leaf with the given shape and growth.
    pub fn new(shape: L, growth: Growth) -> (leaf: Self)
        ensures
            leaf.shape == shape,
            leaf.growth == growth,
    {
        Self { shape, growth }
    }

    /// The growth of the leaf.
    pub fn get_growth(&self) -> (growth: &Growth)
        ensures
            *growth == self.growth,
    {
        &self.growth
    }

    /// The growth of the leaf, to change it.
    pub fn get_growth_mut(&mut self) -> (growth: &mut Growth)
        ensures
            *growth == old(self).growth,
            final(self).growth == *final(growth),
            final(self).shape == old(self).shape,
    {
        &mut self.growth
    }
}

impl<L> Growable for Leaf<L> {
    open spec fn can_grow(&self, factors: u16) -> bool {
        leaf_can_grow(*self, factors)
    }

    open spec fn grows_into(&self, next: &Self, factors: u16) -> bool {
        leaf_grows_into(*self, *next, factors)
    }

    open spec fn fully_grown(&self) -> bool {
        leaf_fully_grown(*self)
    }

    fn grow(&mut self, factors: u16) {
        self.get_growth_mut().grow_factors(factors);
    }

    fn is_fully_grown(&self) -> (b: bool) {
        self.get_growth().is_fully_grown()
    }
}

impl<L> Growable for Vec<Leaf<L>> {
    open spec fn can_grow(&self, factors: u16) -> bool {
        forall|i: int| 0 <= i < self@.len() ==> leaf_can_grow(#[trigger] self@[i], factors)
    }

    open spec fn grows_into(&self, next: &Self, factors: u16) -> bool {
        &&& next@.len() == self@.len()
        &&& forall|i: int| 0 <= i < self@.len() ==> leaf_grows_into(#[trigger] self@[i], next@[i], factors)
    }

    open spec fn fully_grown(&self) -> bool {
        forall|i: int| 0 <= i < self@.len() ==> leaf_fully_grown(#[trigger] self@[i])
    }

    fn grow(&mut self, factors: u16) {
        let n = self.len();
        for i in 0..n
            invariant
                n == old(self)@.len(),
                self@.len() == n,
                forall|j: int| 0 <= j < n ==> leaf_can_grow(#[trigger] old(self)@[j], factors),
                forall|j: int| 0 <= j < i ==> leaf_grows_into(#[trigger] old(self)@[j], self@[j], factors),
                forall|j: int| i <= j < n ==> #[trigger] self@[j] == old(self)@[j],
        {
            self[i].grow(factors);
        }
    }

    fn is_fully_grown(&self) -> (b: bool) {
        let n = self.len();
        for i in 0..n
            invariant
                n == self@.len(),
                forall|j: int| 0 <= j < i ==> leaf_fully_grown(#[trigger] self@[j]),
        {
            if !self[i].is_fully_grown() {
                return false;
            }
        }
        true
    }
}

} // verus!
