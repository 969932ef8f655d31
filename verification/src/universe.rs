//! Universe levels, level shifts, and record-field labels.

use vstd::prelude::*;

verus! {

/// A universe level: the index of a type universe in the stratified
/// hierarchy of universes.
#[derive(Debug, Clone, Copy, PartialEq, Eq, Structural)]
pub struct Level(pub u32);

impl Level {
    /// The next universe level up.
    pub fn succ(self) -> (r: Level)
        requires
            self.0 < u32::MAX,
        ensures
            r.0 == self.0 + 1,
    {
        Level(self.0 + 1)
    }

    /// This level shifted up by `shift`, as used when a universe-polymorphic
    /// definition is referenced at an offset level.
    pub fn shifted(self, shift: LevelShift) -> (r: Level)
        requires
            self.0 + shift.0 <= u32::MAX,
        ensures
            r.0 == self.0 + shift.0,
    {
        Level(self.0 + shift.0)
    }
}

impl From<u32> for Level {
    fn from(src: u32) -> (r: Level) {
        Level(src)
    }
}

impl vstd::std_specs::convert::FromSpecImpl<u32> for Level {
    open spec fn obeys_from_spec() -> bool {
        true
    }

    open spec fn from_spec(src: u32) -> Level {
        Level(src)
    }
}

/// A non-negative offset added to universe levels.
#[derive(Debug, Clone, Copy, PartialEq, Eq, Structural)]
pub struct LevelShift(pub u32);

impl LevelShift {
    /// The composition of two shifts: shifting by `self` and then by `other`
    /// is shifting by `self.plus(other)`.
    pub fn plus(self, other: LevelShift) -> (r: LevelShift)
        requires
            self.0 + other.0 <= u32::MAX,
        ensures
            r.0 == self.0 + other.0,
    {
        LevelShift(self.0 + other.0)
    }
}

impl From<u32> for LevelShift {
    fn from(src: u32) -> (r: LevelShift) {
        LevelShift(src)
    }
}

impl vstd::std_specs::convert::FromSpecImpl<u32> for LevelShift {
    open spec fn obeys_from_spec() -> bool {
        true
    }

    open spec fn from_spec(src: u32) -> LevelShift {
        LevelShift(src)
    }
}

/// The name of a field in a record or record type.
///
/// Unlike binder names, labels are significant when comparing terms for
/// alpha-equivalence.
#[derive(Debug, PartialEq, Eq)]
pub struct Label(pub String);

impl View for Label {
    type V = Seq<char>;

    open spec fn view(&self) -> Seq<char> {
        self.0@
    }
}

impl Clone for Label {
    fn clone(&self) -> (r: Self)
        ensures
            r == *self,
    {
        Label(self.0.clone())
    }
}

impl From<String> for Label {
    fn from(src: String) -> (r: Label) {
        Label(src)
    }
}

impl vstd::std_specs::convert::FromSpecImpl<String> for Label {
    open spec fn obeys_from_spec() -> bool {
        true
    }

    open spec fn from_spec(src: String) -> Label {
        Label(src)
    }
}

impl Label {
    /// Labels are compared by their text.
    pub fn alpha_eq(&self, other: &Label) -> (r: bool)
        ensures
            r == (self@ == other@),
    {
        self.0 == other.0
    }
}

} // verus!
