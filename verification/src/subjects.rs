//! The existential state of a subject: whether it is alive and conscious,
//! and where it is.

use vstd::prelude::*;

verus! {

/// A subject's state; a fresh subject is neither alive nor conscious and
/// has no position.
#[derive(Debug)]
pub struct SubjectState {
    pub alive: bool,
    pub conscious: bool,
    pub position: Option<String>,
}

impl SubjectState {
    /// The initial state: not alive, not conscious, nowhere.
    pub fn new() -> (r: SubjectState)
        ensures
            !r.alive,
            !r.conscious,
            r.position is None,
    {
        SubjectState { alive: false, conscious: false, position: None }
    }
}

impl Default for SubjectState {
    /// The initial state: not alive, not conscious, nowhere.
    fn default() -> (r: SubjectState)
        ensures
            !r.alive,
            !r.conscious,
            r.position is None,
    {
        SubjectState::new()
    }
}

} // verus!
