//! The kind of system that the manager runs on.
use vstd::prelude::*;

verus! {

/// The kind of system. Every system but Windows follows the Unix rules.
#[derive(Clone, Copy, Debug, PartialEq, Eq, Structural)]
pub enum Platform {
    Unix,
    Windows,
}

} // verus!
