//! The kinds of animation, which follow one another in a ring.

use vstd::prelude::*;

verus! {

/// A kind of animation.
#[derive(Clone, Copy, Debug, PartialEq, Eq, Structural)]
pub enum AnimationType {
    Rotate,
    Scale,
    Morph,
    Complex,
}

/// The kind that follows `kind` in the ring.
pub open spec fn successor(kind: AnimationType) -> AnimationType {
    match kind {
        AnimationType::Rotate => AnimationType::Scale,
        AnimationType::Scale => AnimationType::Morph,
        AnimationType::Morph => AnimationType::Complex,
        AnimationType::Complex => AnimationType::Rotate,
    }
}

impl AnimationType {
    /// The kind that follows this one; after the last comes the first.
    pub fn next(&self) -> (following: AnimationType)
        ensures
            following == successor(*self),
    {
        match self {
            AnimationType::Rotate => AnimationType::Scale,
            AnimationType::Scale => AnimationType::Morph,
            AnimationType::Morph => AnimationType::Complex,
            AnimationType::Complex => AnimationType::Rotate,
        }
    }
}

/// The ring has four kinds: four steps lead back to where they began, and
/// fewer do not.
pub proof fn lemma_ring_of_four(kind: AnimationType)
    ensures
        successor(successor(successor(successor(kind)))) == kind,
        successor(kind) != kind,
        successor(successor(kind)) != kind,
        successor(successor(successor(kind))) != kind,
{
}

} // verus!
