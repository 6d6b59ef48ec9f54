//! The input record type: one (possibly empty) input paired with the frame
//! it occurred on.

use vstd::prelude::*;

verus! {

use vstd::std_specs::cmp::PartialEqSpec;

/// Interface of an input record: construction and comparison.
pub trait GameInputTrait<I>: Sized where I: PartialEq {
    fn new(input: I) -> Self;

    fn init() -> Self;

    fn equal(&self, other: &GameInput<I>, inputs_only: bool) -> bool;
}

/// One slot of a participant's input history.
///
/// A record with `frame == Some(f)` and `input == Some(v)` is a real,
/// confirmed input for frame `f`; a record with either field unset is a
/// placeholder (an empty slot, or a synthesized prediction whose frame is
/// deliberately left unset so that inputs-only comparison still works).
/// `I` is the concrete input payload of the game.
#[derive(Clone, Copy)]
pub struct GameInput<I> where I: PartialEq {
    pub frame: Option<usize>,
    pub input: Option<I>,
}

impl<I: PartialEq> GameInput<I> {
    /// True iff the two payloads compare equal under `I`'s own equality
    /// (`eq_spec`), or are both absent.
    pub open spec fn inputs_match(a: Option<I>, b: Option<I>) -> bool {
        match (a, b) {
            (Some(x), Some(y)) => x.eq_spec(&y),
            (None, None) => true,
            _ => false,
        }
    }

    /// What `equal` decides: payloads must match, and unless `inputs_only`
    /// is set, the frames must match as well.
    pub open spec fn equal_spec(self, other: GameInput<I>, inputs_only: bool) -> bool {
        &&& !inputs_only ==> self.frame == other.frame
        &&& Self::inputs_match(self.input, other.input)
    }

    /// The all-unset placeholder record.
    pub open spec fn empty() -> GameInput<I> {
        GameInput { frame: None, input: None }
    }
}

impl<I: PartialEq> GameInputTrait<I> for GameInput<I> {
    /// A record for a caller-supplied input whose frame will be assigned by
    /// the queue later.
    fn new(input: I) -> (r: Self)
        ensures
            r == (GameInput { frame: None::<usize>, input: Some(input) }),
    {
        Self { frame: None, input: Some(input) }
    }

    /// The empty placeholder record.
    fn init() -> (r: Self)
        ensures
            r == Self::empty(),
    {
        Self { frame: None, input: None }
    }

    /// Pure comparison of two records. When `I`'s equality obeys its
    /// specification, the result is exactly `equal_spec`; the frame test
    /// alone is exact for every `I`.
    fn equal(&self, other: &GameInput<I>, inputs_only: bool) -> (r: bool)
        ensures
            I::obeys_eq_spec() ==> r == self.equal_spec(*other, inputs_only),
            !inputs_only && self.frame != other.frame ==> !r,
    {
        if !inputs_only && self.frame != other.frame {
            return false;
        }
        match (&self.input, &other.input) {
            (Some(a), Some(b)) => a == b,
            (None, None) => true,
            _ => false,
        }
    }
}

} // verus!
