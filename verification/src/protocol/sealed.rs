//! The trait that keeps [`MessageType`](crate::protocol::MessageType) closed.

use vstd::prelude::*;

verus! {

/// Only the types of this crate are messages.
pub trait Sealed {

}

} // verus!
