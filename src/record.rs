use vstd::prelude::*;

verus! {

/// What a seat did.
#[derive(Debug, Clone, Copy, PartialEq, Eq, Structural)]
pub enum Action {
    Bet(usize),
    Fold,
    Deal,
}

/// One entry of a hand's history.
#[derive(Debug, Clone, Copy, PartialEq, Eq, Structural)]
pub struct Record {
    pub seat: usize,
    pub action: Action,
}

/// The history of a hand, oldest first.
pub type Records = Vec<Record>;

} // verus!
