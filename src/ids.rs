use vstd::prelude::*;

verus! {

/// Identifier of a user: the 128 bits of a time-ordered UUID.
#[derive(Clone, Copy, Debug, PartialEq, Eq, Structural, Hash)]
pub struct UserId(pub u128);

/// Identifier of a tag.
#[derive(Clone, Copy, Debug, PartialEq, Eq, Structural, Hash)]
pub struct TagId(pub u128);

/// Identifier of an event.
#[derive(Clone, Copy, Debug, PartialEq, Eq, Structural, Hash)]
pub struct EventId(pub u128);

/// Identifier of an image attached to an event.
#[derive(Clone, Copy, Debug, PartialEq, Eq, Structural, Hash)]
pub struct EventImageId(pub u128);

impl UserId {
    pub fn new(raw: u128) -> (r: Self)
        ensures
            r.0 == raw,
    {
        UserId(raw)
    }

    pub fn into_inner(self) -> (r: u128)
        ensures
            r == self.0,
    {
        self.0
    }
}

} // verus!
