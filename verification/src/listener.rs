//! Listeners.

use std::fmt::{Debug, Formatter};

use vstd::prelude::*;

use crate::error::Fault;

verus! {

/// The holder of a bound port.
///
/// When its driver learns that the listener is gone, it frees the port for reuse, but established
/// connections will not be closed.
pub struct MuxListener {
    identifier: &'static str,
    port: u16,
}

impl Debug for MuxListener {
    fn fmt(&self, f: &mut Formatter<'_>) -> (result: std::fmt::Result) {
        f.debug_struct("MuxListener").field("id", &self.identifier).field(
            "port",
            &self.port,
        ).finish()
    }
}

/// A listener as a mathematical value.
pub struct ListenerView {
    /// The identifier of its multiplexor.
    pub identifier: &'static str,
    pub port: u16,
}

impl View for MuxListener {
    type V = ListenerView;

    closed spec fn view(&self) -> ListenerView {
        ListenerView { identifier: self.identifier, port: self.port }
    }
}

/// What accepting comes to, with `received` for what came from the listener's queue: a stream, or
/// the queue's own error where it is empty and nothing can enter it any more.
pub open spec fn accepted<S, E>(received: Result<S, E>) -> Result<S, (Fault, E)> {
    match received {
        Ok(stream) => Ok(stream),
        Err(error) => Err((Fault::Other, error)),
    }
}

impl MuxListener {
    /// A listener on a port that has been bound.
    pub(crate) fn new(identifier: &'static str, port: u16) -> (listener: Self)
        ensures
            listener@ == (ListenerView { identifier, port }),
    {
        MuxListener { identifier, port }
    }

    /// Passes on a stream that was queued for the listener. An empty queue that nothing can enter
    /// any more is an error, which comes with what the queue has to say of it.
    pub fn accept<S, E>(&self, received: Result<S, E>) -> (result: Result<S, (Fault, E)>)
        ensures
            result == accepted(received),
    {
        match received {
            Ok(stream) => Ok(stream),
            Err(error) => Err((Fault::Other, error)),
        }
    }

    /// The port of the listener.
    pub fn port(&self) -> (port: u16)
        ensures
            port == self@.port,
    {
        self.port
    }
}

} // verus!
