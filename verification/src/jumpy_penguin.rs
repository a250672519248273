//! Platforms that travel a closed path of destinations, one segment at a time.
use vstd::prelude::*;

verus! {

/// A closed path: the destinations in order, and which one is being headed for.
/// After the last destination the path starts over at the first.
pub struct SegmentPath<T> {
    destinations: Vec<T>,
    current: usize,
}

impl<T> View for SegmentPath<T> {
    type V = (Seq<T>, nat);

    closed spec fn view(&self) -> (Seq<T>, nat) {
        (self.destinations@, self.current as nat)
    }
}

impl<T> SegmentPath<T> {
    #[verifier::type_invariant]
    spec fn cursor_in_range(self) -> bool {
        self.destinations.len() == 0 || self.current < self.destinations.len()
    }
}

impl<T: Copy> SegmentPath<T> {
    /// A path through `destinations`, heading for the first.
    pub fn new(destinations: Vec<T>) -> (r: Self)
        ensures
            r@.0 == destinations@,
            r@.1 == 0,
    {
        SegmentPath { destinations, current: 0 }
    }

    /// Number of destinations on the path.
    pub fn len(&self) -> (r: usize)
        ensures
            r == self@.0.len(),
    {
        self.destinations.len()
    }

    /// The destination currently headed for.
    pub fn dest(&self) -> (r: T)
        requires
            self@.0.len() > 0,
        ensures
            self@.1 < self@.0.len(),
            r == self@.0[self@.1 as int],
    {
        proof {
            use_type_invariant(self);
        }
        self.destinations[self.current]
    }

    /// Head for the next destination, starting over after the last one. A path
    /// without destinations stays as it is.
    pub fn advance(&mut self)
        ensures
            final(self)@.0 == old(self)@.0,
            final(self)@.1 == if old(self)@.0.len() > 0 {
                (old(self)@.1 + 1) % old(self)@.0.len()
            } else {
                old(self)@.1
            },
    {
        proof {
            use_type_invariant(&*self);
        }
        if self.destinations.len() > 0 {
            self.current = (self.current + 1) % self.destinations.len();
        }
    }
}

} // verus!
