//! Growth of a single part of a tree: a counter that fills up in units of a
//! growth factor, after an optional dormancy (a delay paid off first).
use vstd::prelude::*;

verus! {

/// The largest growth amount; a part whose amount reaches it is fully grown.
pub const GROWTH_MAX: u16 = 65535;

/// What a `Growth` holds, as plain values.
pub struct GrowthView {
    /// Unit of growth.
    pub factor: u16,
    /// How far the part has grown, from 0 up to `GROWTH_MAX`.
    pub amount: u16,
    /// Delay: growth that is swallowed before the amount increases.
    pub dormancy: u16,
}

/// The smaller of two integers.
pub open spec fn min_int(a: int, b: int) -> int {
    if a < b { a } else { b }
}

impl GrowthView {
    /// The state after growing by `amount`: the dormancy is paid off first,
    /// and what remains is added to the amount, saturating at `GROWTH_MAX`.
    pub open spec fn grown(self, amount: int) -> GrowthView {
        let interest = min_int(amount, self.dormancy as int);
        GrowthView {
            factor: self.factor,
            amount: min_int(self.amount + amount - interest, GROWTH_MAX as int) as u16,
            dormancy: (self.dormancy - interest) as u16,
        }
    }

    /// Whether the amount has reached its maximum.
    pub open spec fn fully_grown(self) -> bool {
        self.amount == GROWTH_MAX
    }

    /// How much growth is still owed before the part is fully grown:
    /// the remaining dormancy plus the missing amount.
    pub open spec fn deficit(self) -> nat {
        (self.dormancy + (GROWTH_MAX - self.amount)) as nat
    }
}

/// The size of one segment when the full amount is cut into `seg_c` segments.
pub open spec fn segment_size(seg_c: u16) -> u16
    recommends
        seg_c != 0,
{
    (GROWTH_MAX / seg_c) as u16
}

/// Growth for any part of a tree; its purpose is mostly animation.
#[derive(Debug)]
pub struct Growth {
    factor: u16,
    amount: u16,
    dormancy: u16,
}

impl Clone for Growth {
    /// A copy with the same factor, amount and dormancy.
    fn clone(&self) -> (copy: Self)
        ensures
            copy == *self,
    {
        Self { factor: self.factor, amount: self.amount, dormancy: self.dormancy }
    }
}

impl View for Growth {
    type V = GrowthView;

    closed spec fn view(&self) -> GrowthView {
        GrowthView { factor: self.factor, amount: self.amount, dormancy: self.dormancy }
    }
}

impl Growth {
    /// The largest growth amount.
    pub const MAX: u16 = 65535;

    /// A growth with the given unit and delay, not grown at all.
    pub fn new(factor: u16, dormancy: u16) -> (g: Self)
        ensures
            g@ == (GrowthView { factor, amount: 0, dormancy }),
    {
        Self { factor, amount: 0, dormancy }
    }

    /// A growth whose unit is the size of one of `seg_c` segments.
    pub fn new_segmented(seg_c: u16, dormancy: u16) -> (g: Self)
        requires
            seg_c != 0,
        ensures
            g@ == (GrowthView { factor: segment_size(seg_c), amount: 0, dormancy }),
    {
        Self::new(Self::MAX / seg_c, dormancy)
    }

    /// The size of one of `seg_c` segments.
    pub fn get_segment_size(seg_c: u16) -> (size: u16)
        requires
            seg_c != 0,
        ensures
            size == segment_size(seg_c),
            size as int * seg_c as int <= GROWTH_MAX as int,
            (GROWTH_MAX as int - size as int * seg_c as int) < (seg_c as int),
    {
        proof {
            assert(((GROWTH_MAX / seg_c) as int) * (seg_c as int) <= GROWTH_MAX as int
                && (GROWTH_MAX as int - ((GROWTH_MAX / seg_c) as int) * (seg_c as int)) < (seg_c as int))
                by (nonlinear_arith)
                requires seg_c != 0;
        }
        Self::MAX / seg_c
    }

    /// Pays off the dormancy first, then increases the amount by what is
    /// left, saturating at the maximum.
    pub fn grow(&mut self, amount: u16)
        ensures
            final(self)@ == old(self)@.grown(amount as int),
    {
        let mut amount = amount;
        let dormancy_interest = if amount > self.dormancy {
            self.dormancy
        } else {
            amount
        };

        amount -= dormancy_interest;

        self.dormancy -= dormancy_interest;
        self.amount = self.amount.saturating_add(amount);
    }

    /// Grows by `count` units of the growth factor.
    pub fn grow_factors(&mut self, count: u16)
        requires
            old(self)@.factor as int * count as int <= GROWTH_MAX as int,
        ensures
            final(self)@ == old(self)@.grown(old(self)@.factor as int * count as int),
    {
        self.grow(self.factor * count);
    }

    /// Grows by `count` segments, the full amount being cut into `seg_c`.
    pub fn grow_segments(&mut self, seg_c: u16, count: u16)
        requires
            seg_c != 0,
            segment_size(seg_c) as int * count as int <= GROWTH_MAX as int,
        ensures
            final(self)@ == old(self)@.grown(segment_size(seg_c) as int * count as int),
    {
        let size = Self::get_segment_size(seg_c);
        self.grow(size * count);
    }

    /// Replaces the dormancy.
    pub fn set_dormancy(&mut self, dormancy: u16)
        ensures
            final(self)@ == (GrowthView { dormancy, ..old(self)@ }),
    {
        self.dormancy = dormancy;
    }

    /// The unit of growth.
    pub fn get_factor(&self) -> (factor: u16)
        ensures
            factor == self@.factor,
    {
        self.factor
    }

    /// How far the part has grown.
    pub fn get_amount(&self) -> (amount: u16)
        ensures
            amount == self@.amount,
    {
        self.amount
    }

    /// How many growth units make up the full amount.
    pub fn get_amount_factor(&self) -> (count: u16)
        requires
            self@.factor != 0,
        ensures
            count == GROWTH_MAX / self@.factor,
    {
        Self::MAX / self.factor
    }

    /// The remaining delay.
    pub fn get_dormancy(&self) -> (dormancy: u16)
        ensures
            dormancy == self@.dormancy,
    {
        self.dormancy
    }

    /// How many whole growth units have been grown.
    pub fn get_grown_factor_count(&self) -> (count: u16)
        requires
            self@.factor != 0,
        ensures
            count == self@.amount / self@.factor,
    {
        self.amount / self.factor
    }

    /// How many whole segments have been grown, the full amount being cut
    /// into `seg_c` segments.
    pub fn get_grown_segment_count(&self, seg_c: u16) -> (count: u16)
        requires
            seg_c != 0,
        ensures
            count == self@.amount / segment_size(seg_c),
    {
        self.amount / Self::get_segment_size(seg_c)
    }

    /// Whether the amount has reached its maximum.
    pub fn is_fully_grown(&self) -> (b: bool)
        ensures
            b == self@.fully_grown(),
    {
        self.amount == Self::MAX
    }
}

/// Growing by `amount` pays off exactly `amount` of what is still owed, or
/// all of it if that is less; the factor never changes.
pub proof fn lemma_grow_pays_deficit(growth: GrowthView, amount: int)
    requires
        amount >= 0,
    ensures
        growth.grown(amount).deficit() == growth.deficit() - min_int(amount, growth.deficit() as int),
        growth.grown(amount).factor == growth.factor,
{
}

/// Growth never goes backwards: the amount never decreases, the dormancy
/// never increases, and a fully grown part stays fully grown.
pub proof fn lemma_grow_monotone(growth: GrowthView, amount: int)
    requires
        amount >= 0,
    ensures
        growth.grown(amount).amount >= growth.amount,
        growth.grown(amount).dormancy <= growth.dormancy,
        growth.fully_grown() ==> growth.grown(amount).fully_grown(),
{
}

/// Dormancy is a delay: while it lasts, growing only pays it off and the
/// amount does not change.
pub proof fn lemma_dormancy_delays(growth: GrowthView, amount: int)
    requires
        0 <= amount <= growth.dormancy,
    ensures
        growth.grown(amount).amount == growth.amount,
        growth.grown(amount).dormancy == growth.dormancy - amount,
{
}

/// Growing in two steps is growing by their sum.
pub proof fn lemma_grow_additive(growth: GrowthView, first: int, second: int)
    requires
        first >= 0,
        second >= 0,
    ensures
        growth.grown(first).grown(second) == growth.grown(first + second),
{
}

/// Growing by at least what is owed makes the part fully grown, with no
/// dormancy left.
pub proof fn lemma_grow_completes(growth: GrowthView, amount: int)
    requires
        amount >= growth.deficit(),
    ensures
        growth.grown(amount).fully_grown(),
        growth.grown(amount).dormancy == 0,
{
}

/// The counts of grown units never exceed the full counts: grown growth
/// factors at most the amount factor, grown segments at most the full
/// amount over the segment size.
pub proof fn lemma_grown_counts_bounded(growth: GrowthView, seg_c: u16)
    requires
        growth.factor != 0,
        seg_c != 0,
    ensures
        growth.amount / growth.factor <= GROWTH_MAX / growth.factor,
        growth.amount / segment_size(seg_c) <= GROWTH_MAX / segment_size(seg_c),
{
    let size = segment_size(seg_c);
    assert(size >= 1) by (nonlinear_arith)
        requires
            size == GROWTH_MAX / seg_c,
            seg_c != 0,
            seg_c <= GROWTH_MAX,
    ;
    let factor = growth.factor;
    let amount = growth.amount;
    assert(amount / factor <= GROWTH_MAX / factor) by (nonlinear_arith)
        requires
            factor >= 1,
            amount <= GROWTH_MAX,
    ;
    assert(amount / size <= GROWTH_MAX / size) by (nonlinear_arith)
        requires
            size >= 1,
            amount <= GROWTH_MAX,
    ;
}

/// A part of a tree that grows as a whole: growing it grows its parts as
/// the part itself decides, and it says when it is fully grown.
pub trait Growable: Sized {
    /// Whether growing by `factors` units keeps every growth that it touches
    /// within range (a growth unit times `factors` must fit in a `u16`).
    spec fn can_grow(&self, factors: u16) -> bool;

    /// Whether `next` is what growing `self` by `factors` units gives.
    spec fn grows_into(&self, next: &Self, factors: u16) -> bool;

    /// Whether the part counts as fully grown.
    spec fn fully_grown(&self) -> bool;

    /// Grows the part by `factors` units.
    fn grow(&mut self, factors: u16)
        requires
            old(self).can_grow(factors),
        ensures
            old(self).grows_into(final(self), factors),
    ;

    /// Whether the part counts as fully grown.
    fn is_fully_grown(&self) -> (b: bool)
        ensures
            b == self.fully_grown(),
    ;
}

} // verus!
