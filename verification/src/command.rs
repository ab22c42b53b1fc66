//! A named action a node source makes available.

use vstd::prelude::*;

verus! {

/// A command a node source type makes available, identified by name.
#[derive(Clone, Debug, PartialEq, Eq)]
pub struct Command {
    pub name: String,
}

} // verus!
