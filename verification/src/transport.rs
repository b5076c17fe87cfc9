//! The receiving side of a connection, as the client's transport offers it.

use vstd::prelude::*;
use std::future::Future;

verus! {

/// A transport that can be handed a future to run when a message arrives.
pub trait TCPReceiver<T> where T: Future + Send + 'static, T::Output: Send + 'static {
    fn listen_message(&mut self, future: T);
}

} // verus!
