//! Requests an actor executes and replies to over a mailbox.

use vstd::prelude::*;

verus! {

/// Trait that a request must implement to be sent to an executor and
/// answered over a reply channel.
pub trait ExecutorRequest {
    type ReplyType;
}

} // verus!
