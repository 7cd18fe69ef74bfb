use vstd::prelude::*;

verus! {

/// The one way an access can fail: the requested span does not lie inside the buffer.
#[derive(Debug, Clone, Copy, PartialEq, Eq, Structural)]
pub enum Error {
    InvalidAccess,
}

} // verus!
