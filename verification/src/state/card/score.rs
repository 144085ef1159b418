use vstd::prelude::*;

verus! {

/// The student's self-reported recall quality for one presentation of a
/// card: the closed set of outcomes a revision session can record.
#[derive(Clone, Copy, Debug, PartialEq, Eq, Structural)]
pub enum Score {
    Fail,
    Hard,
    Pass,
    Easy,
}

} // verus!
