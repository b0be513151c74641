//! A saturating quantity of the simulation's resource.

use vstd::prelude::*;

verus! {

/// The largest quantity a `Resource` can hold.
pub const MAX_AMOUNT: u8 = 255;

/// `a + b`, clamped to the largest representable quantity.
pub open spec fn sat_add(a: u8, b: u8) -> u8 {
    if a + b > MAX_AMOUNT {
        MAX_AMOUNT
    } else {
        (a + b) as u8
    }
}

/// `a - b`, clamped to zero.
pub open spec fn sat_sub(a: u8, b: u8) -> u8 {
    if a < b {
        0
    } else {
        (a - b) as u8
    }
}

/// A quantity of the resource, between zero and `MAX_AMOUNT`.
///
/// Arithmetic saturates at both ends instead of wrapping.
#[derive(Debug, Clone, Copy, PartialEq, Eq, Structural)]
pub struct Resource(pub u8);

impl Resource {
    /// The saturated sum of two quantities.
    pub fn add(self, other: Resource) -> (r: Resource)
        ensures
            r.0 == sat_add(self.0, other.0),
    {
        Resource(self.0.saturating_add(other.0))
    }

    /// Adds `other` in place, saturating at `MAX_AMOUNT`.
    pub fn add_assign(&mut self, other: Resource)
        ensures
            final(self).0 == sat_add(old(self).0, other.0),
    {
        *self = self.add(other);
    }

    /// The saturated difference of two quantities.
    pub fn sub(self, other: Resource) -> (r: Resource)
        ensures
            r.0 == sat_sub(self.0, other.0),
    {
        Resource(self.0.saturating_sub(other.0))
    }

    /// Subtracts `other` in place, saturating at zero.
    pub fn sub_assign(&mut self, other: Resource)
        ensures
            final(self).0 == sat_sub(old(self).0, other.0),
    {
        *self = self.sub(other);
    }

    /// Whether this quantity is at `MAX_AMOUNT`.
    pub fn is_full(self) -> (r: bool)
        ensures
            r == (self.0 == MAX_AMOUNT),
    {
        self.0 == MAX_AMOUNT
    }
}

impl PartialOrd for Resource {
    fn partial_cmp(&self, other: &Resource) -> (r: Option<core::cmp::Ordering>) {
        if self.0 < other.0 {
            Some(core::cmp::Ordering::Less)
        } else if self.0 == other.0 {
            Some(core::cmp::Ordering::Equal)
        } else {
            Some(core::cmp::Ordering::Greater)
        }
    }
}

impl vstd::std_specs::cmp::PartialOrdSpecImpl for Resource {
    open spec fn obeys_partial_cmp_spec() -> bool {
        true
    }

    open spec fn partial_cmp_spec(&self, other: &Resource) -> Option<core::cmp::Ordering> {
        if self.0 < other.0 {
            Some(core::cmp::Ordering::Less)
        } else if self.0 == other.0 {
            Some(core::cmp::Ordering::Equal)
        } else {
            Some(core::cmp::Ordering::Greater)
        }
    }
}

/// Saturating arithmetic stays within `0..=MAX_AMOUNT`, and a quantity taken
/// from itself leaves zero.
pub proof fn lemma_saturation(a: u8, b: u8)
    ensures
        sat_add(a, b) <= MAX_AMOUNT,
        sat_sub(a, b) >= 0,
        sat_sub(a, a) == 0,
        a as int + b as int <= MAX_AMOUNT ==> sat_add(a, b) == a + b,
        a >= b ==> sat_sub(a, b) == a - b,
{
}

} // verus!
