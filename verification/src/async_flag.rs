//! A flag that is set once and stays set.

use vstd::prelude::*;

verus! {

/// A flag that starts unset. Setting it again changes nothing, and nothing
/// unsets it. Who waits for the flag waits until `is_set` holds.
#[derive(Debug)]
pub struct AsyncFlag {
    set: bool,
}

impl View for AsyncFlag {
    type V = bool;

    /// Whether the flag is set.
    closed spec fn view(&self) -> bool {
        self.set
    }
}

impl AsyncFlag {
    pub fn new() -> (flag: AsyncFlag)
        ensures
            !flag@,
    {
        AsyncFlag { set: false }
    }

    pub fn set_flag(&mut self)
        ensures
            final(self)@,
    {
        self.set = true;
    }

    pub fn is_set(&self) -> (set: bool)
        ensures
            set == self@,
    {
        self.set
    }
}

} // verus!
