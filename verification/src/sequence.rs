use vstd::prelude::*;

verus! {

/// A wrapping sequence counter.
#[derive(Debug, Clone, Copy, PartialEq, Eq, Structural)]
pub struct Sequence<T>(pub T);

/// The 32-bit sequence counter carried by every packet.
pub type Seq32 = Sequence<u32>;

/// The successor of `v` in the 32-bit wrapping sequence space.
pub open spec fn next_seq(v: u32) -> u32 {
    if v == u32::MAX { 0 } else { (v + 1) as u32 }
}

impl Sequence<u32> {
    /// Advances the counter by one, wrapping at `u32::MAX`, and returns the
    /// new value.
    pub fn inc(&mut self) -> (r: u32)
        ensures
            final(self).0 == next_seq(old(self).0),
            r == final(self).0,
    {
        self.0 = self.0.wrapping_add(1);
        self.0
    }

    /// The current value of the counter.
    pub fn get(&self) -> (r: u32)
        ensures
            r == self.0,
    {
        self.0
    }
}

impl From<u32> for Sequence<u32> {
    fn from(v: u32) -> (r: Self) {
        Sequence(v)
    }
}

impl vstd::std_specs::convert::FromSpecImpl<u32> for Sequence<u32> {
    open spec fn obeys_from_spec() -> bool {
        true
    }

    open spec fn from_spec(v: u32) -> Self {
        Sequence(v)
    }
}

impl Sequence<u32> {
    /// A counter starting at zero.
    pub fn new() -> (r: Self)
        ensures
            r.0 == 0,
    {
        Sequence(0)
    }
}

impl Default for Sequence<u32> {
    fn default() -> (r: Self)
        ensures
            r.0 == 0,
    {
        Self::new()
    }
}

} // verus!
