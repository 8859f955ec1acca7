//! What the library asks its driver to do.

use bytes::Bytes;
use vstd::prelude::*;

use crate::error::Fault;
use crate::frame::{Frame, FrameView};
use crate::outside::bytes_view;

verus! {

/// One thing to do for a connection. The things to do come in the order in which they are due,
/// and none of them can change what comes after it: a failure is at most logged.
#[derive(Debug)]
pub enum Action {
    /// Queue a frame for the peer.
    Send(Frame),
    /// Make a stream, keep its inner end, and queue its outer end with the listener on this port.
    Accept(u16),
    /// Make a stream, keep its inner end, and hand its outer end to whoever dialled.
    Connect,
    /// Tell whoever dialled that it failed.
    Refuse(Fault),
    /// Write to the stream.
    Write(Bytes),
    /// Let go of the half of the stream that is written to.
    CloseWrite,
    /// Tell the stream's reader to stop.
    Reset,
}

/// An action as a mathematical value.
#[verifier::ext_equal]
pub enum ActionView {
    Send(FrameView),
    Accept(u16),
    Connect,
    Refuse(Fault),
    Write(Seq<u8>),
    CloseWrite,
    Reset,
}

impl View for Action {
    type V = ActionView;

    open spec fn view(&self) -> ActionView {
        match self {
            Action::Send(frame) => ActionView::Send(frame@),
            Action::Accept(port) => ActionView::Accept(*port),
            Action::Connect => ActionView::Connect,
            Action::Refuse(fault) => ActionView::Refuse(*fault),
            Action::Write(data) => ActionView::Write(bytes_view(*data)),
            Action::CloseWrite => ActionView::CloseWrite,
            Action::Reset => ActionView::Reset,
        }
    }
}

/// The actions of a list, as mathematical values.
pub open spec fn actions_view(actions: Seq<Action>) -> Seq<ActionView> {
    Seq::new(actions.len(), |i: int| actions[i]@)
}

} // verus!
