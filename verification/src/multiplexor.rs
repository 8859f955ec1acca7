//! The multiplexor as its users see it.

use std::fmt::{Debug, Formatter};

use vstd::prelude::*;

use crate::config::StreamMultiplexorConfig;
use crate::error::Fault;
use crate::frame::{Flag, Frame, FrameView};
use crate::inner::{InnerView, StreamMultiplexorInner};
use crate::listener::MuxListener;
use crate::outside::random_between;
use crate::socket::{MuxSocket, PortState};

verus! {

/// One end of a multiplexed stream.
pub struct StreamMultiplexor {
    /// What its tasks share.
    pub inner: StreamMultiplexorInner,
}

impl Debug for StreamMultiplexor {
    fn fmt(&self, f: &mut Formatter<'_>) -> (result: std::fmt::Result) {
        f.debug_struct("StreamMultiplexor").field("id", &self.inner.config().identifier).field(
            "inner",
            &self.inner,
        ).finish()
    }
}

impl View for StreamMultiplexor {
    type V = InnerView;

    open spec fn view(&self) -> InnerView {
        self.inner@
    }
}

/// A port that is chosen for a caller: not one of the lower ones, nor the highest.
pub open spec fn choosable(port: u16) -> bool {
    1024 <= port < u16::MAX
}

impl MuxSocket {
    /// A socket that has asked its peer for a connection.
    pub open spec fn dialled(identifier: &'static str, sport: u16, dport: u16) -> MuxSocket {
        MuxSocket {
            state: PortState::Ack,
            has_stream_sender: true,
            ..MuxSocket::fresh(identifier, sport, dport, false)
        }
    }
}

impl InnerView {
    /// A port can be chosen for a listener.
    pub open spec fn has_listen_port(self) -> bool {
        exists|port: u16| choosable(port) && !#[trigger] self.listeners.contains(port)
    }

    /// A port can be chosen from which to dial `dport`.
    pub open spec fn has_source_port(self, dport: u16) -> bool {
        exists|port: u16|
            choosable(port) && !#[trigger] self.connections.contains_key((port, dport))
    }

    /// With a listener on `port`.
    pub open spec fn bound(self, port: u16) -> InnerView {
        InnerView { listeners: self.listeners.insert(port), ..self }
    }
}

/// A connection that has been asked for.
#[derive(Debug)]
pub struct Dial {
    /// The handle of its socket.
    pub socket: usize,
    /// Its port here.
    pub sport: u16,
    /// The frame that asks for it, to be queued for the peer.
    pub syn: Frame,
}

impl Dial {
    /// Passes on the outcome: a stream, or why there is none. If nobody is left who could tell,
    /// that is an error of its own.
    pub fn outcome<S>(reply: Option<Result<S, Fault>>) -> (result: Result<S, Fault>)
        ensures
            result == (match reply {
                Some(outcome) => outcome,
                None => Err::<S, Fault>(Fault::Other),
            }),
    {
        match reply {
            Some(outcome) => outcome,
            None => Err(Fault::Other),
        }
    }
}

impl StreamMultiplexor {
    /// A multiplexor that processes frames at once.
    pub fn new(config: StreamMultiplexorConfig) -> (mux: Self)
        ensures
            mux@.well_formed(),
            mux@ == InnerView::initial(config, true),
            mux@.has_listen_port(),
            forall|dport: u16| #[trigger] mux@.has_source_port(dport),
    {
        Self::new_running(config, true)
    }

    /// A multiplexor that is paused.
    ///
    /// This allows to bind a number of ports before any frame is processed, so that nothing is
    /// lost between bind and connect. `start` ends the pause.
    pub fn new_paused(config: StreamMultiplexorConfig) -> (mux: Self)
        ensures
            mux@.well_formed(),
            mux@ == InnerView::initial(config, false),
            mux@.has_listen_port(),
            forall|dport: u16| #[trigger] mux@.has_source_port(dport),
    {
        Self::new_running(config, false)
    }

    fn new_running(config: StreamMultiplexorConfig, running: bool) -> (mux: Self)
        ensures
            mux@.well_formed(),
            mux@ == InnerView::initial(config, running),
            mux@.has_listen_port(),
            forall|dport: u16| #[trigger] mux@.has_source_port(dport),
    {
        let mux = StreamMultiplexor { inner: StreamMultiplexorInner::new(config, running) };
        proof {
            assert(!mux@.listeners.contains(1024));
            assert forall|dport: u16| #[trigger] mux@.has_source_port(dport) by {
                assert(!mux@.connections.contains_key((1024, dport)));
            }
        }
        mux
    }

    /// Starts to process frames. Only a paused multiplexor notices.
    pub fn start(&mut self)
        requires
            old(self)@.well_formed(),
        ensures
            final(self)@.well_formed(),
            final(self)@ == (InnerView { running: true, ..old(self)@ }),
    {
        self.inner.run();
    }

    /// Whether a port that was drawn may be given to a listener.
    pub fn may_listen_on(&self, drawn: u16) -> (may: bool)
        ensures
            may == (drawn >= 1024 && !self@.listeners.contains(drawn)),
    {
        drawn >= 1024 && !self.inner.is_listening(drawn)
    }

    /// Whether a port that was drawn may be used to dial `dport`.
    pub fn may_dial_from(&self, drawn: u16, dport: u16) -> (may: bool)
        ensures
            may == (drawn >= 1024 && !self@.connections.contains_key((drawn, dport))),
    {
        drawn >= 1024 && self.inner.connection(drawn, dport).is_none()
    }

    /// The lowest port that can be chosen for a listener.
    fn lowest_listen_port(&self) -> (port: Option<u16>)
        ensures
            port is Some <==> self@.has_listen_port(),
            port matches Some(p) ==> choosable(p) && !self@.listeners.contains(p),
    {
        let mut port: u16 = 1024;
        while port < u16::MAX
            invariant
                1024 <= port,
                forall|p: u16| choosable(p) && p < port ==> #[trigger] self@.listeners.contains(p),
            decreases u16::MAX - port,
        {
            if self.may_listen_on(port) {
                return Some(port);
            }
            port = port + 1;
        }
        None
    }

    /// The lowest port that can be chosen to dial `dport` from.
    fn lowest_source_port(&self, dport: u16) -> (port: Option<u16>)
        ensures
            port is Some <==> self@.has_source_port(dport),
            port matches Some(p) ==> choosable(p) && !self@.connections.contains_key((p, dport)),
    {
        let mut port: u16 = 1024;
        while port < u16::MAX
            invariant
                1024 <= port,
                forall|p: u16|
                    choosable(p) && p < port ==> #[trigger] self@.connections.contains_key(
                        (p, dport),
                    ),
            decreases u16::MAX - port,
        {
            if self.may_dial_from(port, dport) {
                return Some(port);
            }
            port = port + 1;
        }
        None
    }

    /// Whether a port can be chosen for a listener.
    pub fn has_listen_port(&self) -> (has: bool)
        ensures
            has == self@.has_listen_port(),
    {
        self.lowest_listen_port().is_some()
    }

    /// Whether a port can be chosen from which to dial `dport`.
    pub fn has_source_port(&self, dport: u16) -> (has: bool)
        ensures
            has == self@.has_source_port(dport),
    {
        self.lowest_source_port(dport).is_some()
    }

    /// Draws ports until one can be given to a listener. The number of draws is bounded by what a
    /// `u64` can count, which no run comes near; behind that bound the lowest port is taken.
    fn draw_listen_port(&self) -> (port: u16)
        requires
            self@.has_listen_port(),
        ensures
            choosable(port),
            !self@.listeners.contains(port),
    {
        let mut port: u16 = 0;
        let mut draws: u64 = 0;
        while !self.may_listen_on(port)
            invariant
                port < u16::MAX,
                self@.has_listen_port(),
            decreases u64::MAX - draws,
        {
            if draws == u64::MAX {
                if let Some(lowest) = self.lowest_listen_port() {
                    return lowest;
                }
            } else {
                draws = draws + 1;
            }
            port = random_between(1024, u16::MAX);
        }
        port
    }

    /// Draws ports until one can be used to dial `dport`, under the same bound.
    fn draw_source_port(&self, dport: u16) -> (port: u16)
        requires
            self@.has_source_port(dport),
        ensures
            choosable(port),
            !self@.connections.contains_key((port, dport)),
    {
        let mut port: u16 = 0;
        let mut draws: u64 = 0;
        while !self.may_dial_from(port, dport)
            invariant
                port < u16::MAX,
                self@.has_source_port(dport),
            decreases u64::MAX - draws,
        {
            if draws == u64::MAX {
                if let Some(lowest) = self.lowest_source_port(dport) {
                    return lowest;
                }
            } else {
                draws = draws + 1;
            }
            port = random_between(1024, u16::MAX);
        }
        port
    }

    /// Binds a port. Port zero asks for any port that is free, and there has to be one.
    pub fn bind(&mut self, port: u16) -> (result: Result<MuxListener, Fault>)
        requires
            old(self)@.well_formed(),
            port == 0 && old(self)@.connected ==> old(self)@.has_listen_port(),
        ensures
            final(self)@.well_formed(),
            !old(self)@.connected ==> result == Err::<MuxListener, Fault>(Fault::ConnectionReset),
            old(self)@.connected && port != 0 && old(self)@.listeners.contains(port) ==> result
                == Err::<MuxListener, Fault>(Fault::AddrInUse),
            old(self)@.connected && (port == 0 || !old(self)@.listeners.contains(port)) ==> {
                &&& result is Ok
                &&& result->Ok_0@.identifier == old(self)@.config.identifier
                &&& port != 0 ==> result->Ok_0@.port == port
                &&& port == 0 ==> choosable(result->Ok_0@.port)
                &&& !old(self)@.listeners.contains(result->Ok_0@.port)
                &&& final(self)@ == old(self)@.bound(result->Ok_0@.port)
            },
            result is Err ==> final(self)@ == old(self)@,
    {
        if !self.inner.is_connected() {
            return Err(Fault::ConnectionReset);
        }
        let mut port: u16 = port;
        if port == 0 {
            port = self.draw_listen_port();
        } else if self.inner.is_listening(port) {
            return Err(Fault::AddrInUse);
        }
        self.inner.listen(port);
        Ok(MuxListener::new(self.inner.config().identifier, port))
    }

    /// Asks the peer for a connection to `port`, from any port that is free for it; there has to be
    /// one.
    pub fn connect(&mut self, port: u16) -> (result: Result<Dial, Fault>)
        requires
            old(self)@.well_formed(),
            old(self)@.connected ==> old(self)@.has_source_port(port),
        ensures
            final(self)@.well_formed(),
            !old(self)@.connected ==> {
                &&& result == Err::<Dial, Fault>(Fault::ConnectionReset)
                &&& final(self)@ == old(self)@
            },
            old(self)@.connected ==> {
                &&& result matches Ok(dial)
                &&& choosable(dial.sport)
                &&& !old(self)@.connections.contains_key((dial.sport, port))
                &&& !old(self)@.sockets.contains_key(dial.socket)
                &&& dial.syn@ == FrameView::bare(dial.sport, port, Flag::Syn, 0)
                &&& final(self)@ == old(self)@.register(
                    dial.socket,
                    MuxSocket::dialled(old(self)@.config.identifier, dial.sport, port),
                )
            },
    {
        if !self.inner.is_connected() {
            return Err(Fault::ConnectionReset);
        }
        let sport: u16 = self.draw_source_port(port);
        let identifier: &'static str = self.inner.config().identifier;
        let mut socket: MuxSocket = MuxSocket::new(identifier, sport, port, false);
        socket.stream();
        let syn: Frame = socket.start();
        let (id, _) = self.inner.register(socket);
        Ok(Dial { socket: id, sport, syn })
    }

    /// Whether the stream below works, as far as is known.
    pub fn watch_connected(&self) -> (connected: bool)
        ensures
            connected == self@.watch_connected,
    {
        self.inner.is_watch_connected()
    }
}

} // verus!
