//! One client connection and the states it goes through.

use vstd::prelude::*;

verus! {

/// Where a connection stands between its accept and its end.
#[derive(PartialEq, Eq, Structural, Debug, Copy, Clone)]
pub enum ConnState {
    /// Accepted, not yet registered with the poller.
    Accepted,
    /// Waiting for the request.
    AwaitingRead,
    /// The request was read and a handler works on it.
    Dispatching,
    /// The response is there and waits to be written.
    AwaitingWrite,
    /// Over: the response was written, or the peer went away.
    Closed,
}

/// What a connection asks the poller to report, once.
#[derive(PartialEq, Eq, Structural, Debug, Copy, Clone)]
pub struct Interest {
    pub readable: bool,
    pub writable: bool,
}

/// A connection as the contracts see it.
pub struct ConnectionView {
    pub token: usize,
    pub serial: u64,
    pub state: ConnState,
    pub interest: Interest,
    pub inbound: Seq<u8>,
    pub outbound: Seq<u8>,
}

/// The serial number that follows `serial`. The numbers start again at
/// nought after the greatest.
pub open spec fn next_serial(serial: u64) -> u64 {
    if serial == u64::MAX {
        0
    } else {
        (serial + 1) as u64
    }
}

/// A connection that was just accepted. Its serial number tells it from the
/// connection that had its token before.
pub open spec fn accepted(token: usize, serial: u64) -> ConnectionView {
    ConnectionView {
        token,
        serial,
        state: ConnState::Accepted,
        interest: Interest { readable: false, writable: false },
        inbound: Seq::empty(),
        outbound: Seq::empty(),
    }
}

/// The connection once it is registered: it waits for the request.
pub open spec fn registered(conn: ConnectionView) -> ConnectionView {
    ConnectionView {
        state: ConnState::AwaitingRead,
        interest: Interest { readable: true, writable: false },
        ..conn
    }
}

/// The connection after `data` was read: the request is with a handler, and the
/// connection asks the poller for nothing.
pub open spec fn received(conn: ConnectionView, data: Seq<u8>) -> ConnectionView {
    ConnectionView {
        state: ConnState::Dispatching,
        interest: Interest { readable: false, writable: false },
        inbound: conn.inbound + data,
        ..conn
    }
}

/// The connection after the handler produced `output`: the response waits to be
/// written.
pub open spec fn completed(conn: ConnectionView, output: Seq<u8>) -> ConnectionView {
    ConnectionView {
        state: ConnState::AwaitingWrite,
        interest: Interest { readable: false, writable: true },
        outbound: output,
        ..conn
    }
}

/// The connection after the socket took `written` bytes of the response: with
/// nothing left it is closed, else the rest waits to be written.
pub open spec fn flushed(conn: ConnectionView, written: usize) -> ConnectionView {
    if written >= conn.outbound.len() {
        ConnectionView {
            state: ConnState::Closed,
            interest: Interest { readable: false, writable: false },
            outbound: Seq::empty(),
            ..conn
        }
    } else {
        ConnectionView { outbound: conn.outbound.skip(written as int), ..conn }
    }
}

/// The connection after its end: it holds nothing and asks for nothing.
pub open spec fn closed(conn: ConnectionView) -> ConnectionView {
    ConnectionView {
        state: ConnState::Closed,
        interest: Interest { readable: false, writable: false },
        inbound: Seq::empty(),
        outbound: Seq::empty(),
        ..conn
    }
}

/// The serial number that follows `serial`.
pub fn following(serial: u64) -> (next: u64)
    ensures
        next == next_serial(serial),
{
    if serial == u64::MAX {
        0
    } else {
        serial + 1
    }
}

/// The state of one client connection: its token and serial number, what it
/// waits for, and the bytes that came in and that go out.
pub struct Connection {
    token: usize,
    serial: u64,
    state: ConnState,
    interest: Interest,
    i_buf: Vec<u8>,
    o_buf: Vec<u8>,
}

impl View for Connection {
    type V = ConnectionView;

    closed spec fn view(&self) -> ConnectionView {
        ConnectionView {
            token: self.token,
            serial: self.serial,
            state: self.state,
            interest: self.interest,
            inbound: self.i_buf@,
            outbound: self.o_buf@,
        }
    }
}

impl Connection {
    /// A connection that was just accepted.
    pub fn new(token: usize, serial: u64) -> (conn: Connection)
        ensures
            conn@ == accepted(token, serial),
    {
        Connection {
            token,
            serial,
            state: ConnState::Accepted,
            interest: Interest { readable: false, writable: false },
            i_buf: Vec::new(),
            o_buf: Vec::new(),
        }
    }

    /// The token of the connection.
    pub fn token(&self) -> (token: usize)
        ensures
            token == self@.token,
    {
        self.token
    }

    /// The serial number of the connection.
    pub fn serial(&self) -> (serial: u64)
        ensures
            serial == self@.serial,
    {
        self.serial
    }

    /// Where the connection stands.
    pub fn state(&self) -> (state: ConnState)
        ensures
            state == self@.state,
    {
        self.state
    }

    /// What the connection asks the poller for.
    pub fn interest(&self) -> (interest: Interest)
        ensures
            interest == self@.interest,
    {
        self.interest
    }

    /// The bytes read so far.
    pub fn inbound(&self) -> (bytes: &Vec<u8>)
        ensures
            bytes@ == self@.inbound,
    {
        &self.i_buf
    }

    /// The bytes that remain to be written.
    pub fn outbound(&self) -> (bytes: &Vec<u8>)
        ensures
            bytes@ == self@.outbound,
    {
        &self.o_buf
    }

    /// Marks the connection as registered with the poller and gives the
    /// interest to register it with.
    pub fn register(&mut self) -> (interest: Interest)
        ensures
            final(self)@ == registered(old(self)@),
            interest == final(self)@.interest,
    {
        self.state = ConnState::AwaitingRead;
        self.interest = Interest { readable: true, writable: false };
        self.interest
    }

    /// Takes the bytes that a read brought in. The request counts as complete.
    pub fn receive(&mut self, data: &[u8])
        ensures
            final(self)@ == received(old(self)@, data@),
    {
        self.i_buf.extend_from_slice(data);
        self.state = ConnState::Dispatching;
        self.interest = Interest { readable: false, writable: false };
        assert(self.i_buf@ =~= old(self).i_buf@ + data@);
    }

    /// Takes the response that the handler produced.
    pub fn complete(&mut self, output: Vec<u8>)
        ensures
            final(self)@ == completed(old(self)@, output@),
    {
        self.o_buf = output;
        self.state = ConnState::AwaitingWrite;
        self.interest = Interest { readable: false, writable: true };
    }

    /// Notes that the socket took `written` bytes of the response. The result
    /// tells whether the response is out, and the connection over.
    pub fn send(&mut self, written: usize) -> (done: bool)
        ensures
            final(self)@ == flushed(old(self)@, written),
            done == (written >= old(self)@.outbound.len()),
    {
        if written >= self.o_buf.len() {
            self.o_buf = Vec::new();
            self.state = ConnState::Closed;
            self.interest = Interest { readable: false, writable: false };
            true
        } else {
            let rest = self.o_buf.split_off(written);
            self.o_buf = rest;
            assert(self.o_buf@ =~= old(self).o_buf@.skip(written as int));
            false
        }
    }

    /// Ends the connection and drops what it holds.
    pub fn close(&mut self)
        ensures
            final(self)@ == closed(old(self)@),
    {
        self.i_buf = Vec::new();
        self.o_buf = Vec::new();
        self.state = ConnState::Closed;
        self.interest = Interest { readable: false, writable: false };
    }
}

} // verus!
