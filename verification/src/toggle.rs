//! A named on/off switch a node source type exposes.

use vstd::prelude::*;

verus! {

/// A toggle a node source type exposes: its name (e.g. `hidden`) and the
/// key that flips it. Every toggle is one of a type's fixed toggles, never
/// built from user or file data.
#[derive(Clone, Debug, PartialEq, Eq)]
pub struct Toggle {
    pub name: String,
    /// The key that activates this toggle, carried on the toggle itself so
    /// that generic code can wire up key handling without knowing what the
    /// toggle is for.
    pub key: char,
}

impl Toggle {
    /// Builds a toggle named `name` bound to `key`.
    pub fn new(name: &str, key: char) -> (t: Toggle)
        ensures
            t.name@ == name@,
            t.key == key,
    {
        Toggle { name: String::from_str(name), key }
    }
}

} // verus!
