//! The decisions of the event loop.
//!
//! The loop itself lives outside this library: it owns the sockets and the
//! poller. It reports what happened, and each function here answers with the
//! new state of the connections and with the one thing to do next. The poller
//! is taken to report a socket once for each time it was armed.

use crate::connection::{
    completed, flushed, next_serial, received, registered, ConnState, Interest,
};
use crate::slab::{
    after_insert, after_remove, after_update, consistent, empty_table, lemma_connections_finite,
    lemma_remove_consistent, ConnectionTable, TableView,
};
use vstd::prelude::*;

verus! {

/// What the poller reports of a socket.
#[derive(PartialEq, Eq, Structural, Debug, Copy, Clone)]
pub struct Readiness {
    pub readable: bool,
    pub writable: bool,
    pub error: bool,
    pub hup: bool,
}

/// What the event loop is to do next.
#[derive(PartialEq, Eq, Structural, Debug, Copy, Clone)]
pub enum Action {
    /// Nothing.
    Idle,
    /// Accept a connection from the listener, report it with `accept`, and
    /// arm the listener again.
    Accept,
    /// Refuse the connection that was accepted: the table is full.
    Refuse,
    /// Read what the socket holds and report it with `readable`.
    Read(usize),
    /// Hand the bytes of the connection to a handler and report the response
    /// with `notify`, together with the token and the serial number given
    /// here.
    Dispatch(usize, u64),
    /// Write the outbound bytes of the connection and report with `sent`.
    Write(usize),
    /// Arm the socket with the poller for the given interest, once.
    Arm(usize, Interest),
    /// Drop the socket.
    Close(usize),
}

/// The reactor as the contracts see it.
pub struct ReactorView {
    pub listener: usize,
    pub table: TableView,
}

/// The state and the action after the peer of `token` went away or its socket
/// failed: the connection is over, whatever it waited for, and its slot is
/// free at once.
pub open spec fn on_hangup(v: ReactorView, token: usize) -> (ReactorView, Action) {
    if v.table.conns.contains_key(token) {
        (ReactorView { table: after_remove(v.table, token), ..v }, Action::Close(token))
    } else {
        (v, Action::Idle)
    }
}

/// The state and the action after the poller reported `ready` of `token`.
pub open spec fn on_ready(v: ReactorView, token: usize, ready: Readiness) -> (
    ReactorView,
    Action,
) {
    if ready.error || ready.hup {
        on_hangup(v, token)
    } else if ready.readable {
        if token == v.listener {
            (v, Action::Accept)
        } else if v.table.conns.contains_key(token) && v.table.conns[token].state
            == ConnState::AwaitingRead {
            (v, Action::Read(token))
        } else {
            (v, Action::Idle)
        }
    } else if ready.writable {
        if v.table.conns.contains_key(token) && v.table.conns[token].state
            == ConnState::AwaitingWrite {
            (v, Action::Write(token))
        } else {
            (v, Action::Idle)
        }
    } else {
        (v, Action::Idle)
    }
}

/// The state and the action after a connection was accepted: it takes a free
/// slot and waits for its request, or is refused where no slot is free.
pub open spec fn on_accepted(v: ReactorView) -> (ReactorView, Action) {
    if v.table.free.len() == 0 {
        (v, Action::Refuse)
    } else {
        let token = v.table.free.last();
        let table = after_insert(v.table);
        (
            ReactorView { table: after_update(table, token, registered(table.conns[token])), ..v },
            Action::Arm(token, Interest { readable: true, writable: false }),
        )
    }
}

/// The state and the action after a read on `token` brought `data`: the bytes
/// are the request and go to a handler. A read that brought nothing arms the
/// socket again.
pub open spec fn on_received(v: ReactorView, token: usize, data: Seq<u8>) -> (
    ReactorView,
    Action,
) {
    if v.table.conns.contains_key(token) && v.table.conns[token].state
        == ConnState::AwaitingRead {
        if data.len() == 0 {
            (v, Action::Arm(token, v.table.conns[token].interest))
        } else {
            (
                ReactorView {
                    table: after_update(v.table, token, received(v.table.conns[token], data)),
                    ..v
                },
                Action::Dispatch(token, v.table.conns[token].serial),
            )
        }
    } else {
        (v, Action::Idle)
    }
}

/// The state and the action after the handler that was given `token` and
/// `serial` produced `output`: the response waits to be written. A response
/// for a connection that is gone, or for another connection than the one that
/// holds the token now, is dropped.
pub open spec fn on_notify(v: ReactorView, token: usize, serial: u64, output: Seq<u8>) -> (
    ReactorView,
    Action,
) {
    if v.table.conns.contains_key(token) && v.table.conns[token].serial == serial
        && v.table.conns[token].state == ConnState::Dispatching {
        (
            ReactorView {
                table: after_update(v.table, token, completed(v.table.conns[token], output)),
                ..v
            },
            Action::Arm(token, Interest { readable: false, writable: true }),
        )
    } else {
        (v, Action::Idle)
    }
}

/// The state and the action after the socket of `token` took `written` bytes:
/// with the response out the connection is over and its slot free, else the
/// rest waits for the socket to take more.
pub open spec fn on_sent(v: ReactorView, token: usize, written: usize) -> (ReactorView, Action) {
    if v.table.conns.contains_key(token) && v.table.conns[token].state
        == ConnState::AwaitingWrite {
        let conn = v.table.conns[token];
        if written >= conn.outbound.len() {
            (ReactorView { table: after_remove(v.table, token), ..v }, Action::Close(token))
        } else {
            (
                ReactorView { table: after_update(v.table, token, flushed(conn, written)), ..v },
                Action::Arm(token, conn.interest),
            )
        }
    } else {
        (v, Action::Idle)
    }
}

/// A connection whose peer goes away is gone from the table at once,
/// whatever it waited for: the table holds one connection less, no other
/// connection changes, and the slot is the next to be given out.
pub proof fn lemma_hangup_frees_slot(v: ReactorView, token: usize)
    requires
        consistent(v.table),
        v.table.conns.contains_key(token),
    ensures
        ({
            let (after, action) = on_hangup(v, token);
            &&& action == Action::Close(token)
            &&& after.table.conns == v.table.conns.remove(token)
            &&& after.table.conns.len() == v.table.conns.len() - 1
            &&& after.table.free == v.table.free.push(token)
            &&& consistent(after.table)
        }),
{
    lemma_remove_consistent(v.table, token);
    lemma_connections_finite(v.table);
}

/// The response of a handler whose connection went away in the meantime is
/// dropped: it changes nothing while the slot is free, and nothing when
/// another connection has taken the slot, which has another serial number.
pub proof fn lemma_late_response_is_dropped(v: ReactorView, token: usize, output: Seq<u8>)
    requires
        consistent(v.table),
        v.table.conns.contains_key(token),
        v.table.conns[token].state == ConnState::Dispatching,
    ensures
        ({
            let serial = v.table.conns[token].serial;
            let (hung, _) = on_hangup(v, token);
            let (taken, armed) = on_accepted(hung);
            &&& on_notify(hung, token, serial, output) == (hung, Action::Idle)
            &&& armed == Action::Arm(token, Interest { readable: true, writable: false })
            &&& taken.table.conns[token].serial == next_serial(serial)
            &&& on_notify(taken, token, serial, output) == (taken, Action::Idle)
        }),
{
    lemma_remove_consistent(v.table, token);
}

/// While a handler works for a connection, nothing that the poller reports
/// of it starts a second read or a second dispatch, and a connection that is
/// accepted takes another slot.
pub proof fn lemma_one_dispatch_at_a_time(
    v: ReactorView,
    token: usize,
    ready: Readiness,
    data: Seq<u8>,
)
    requires
        consistent(v.table),
        v.table.conns.contains_key(token),
        v.table.conns[token].state == ConnState::Dispatching,
    ensures
        on_ready(v, token, ready).1 == Action::Idle || on_ready(v, token, ready).1 == Action::Close(
            token,
        ) || (token == v.listener && on_ready(v, token, ready).1 == Action::Accept),
        on_received(v, token, data) == (v, Action::Idle),
        on_sent(v, token, 0) == (v, Action::Idle),
        on_accepted(v).1 != Action::Arm(token, Interest { readable: true, writable: false }),
        on_accepted(v).0.table.conns.contains_key(token),
        on_accepted(v).0.table.conns[token] == v.table.conns[token],
{
    if v.table.free.len() > 0 {
        let k = v.table.free.len() - 1;
        assert(!v.table.conns.contains_key(v.table.free[k]));
    }
}

/// The state of the event loop: the token of the listener and the table of
/// connections.
pub struct Reactor {
    listener: usize,
    conns: ConnectionTable,
}

impl View for Reactor {
    type V = ReactorView;

    closed spec fn view(&self) -> ReactorView {
        ReactorView { listener: self.listener, table: self.conns@ }
    }
}

impl Reactor {
    /// What holds of every reactor that `new` made: its table is well-formed
    /// and the token of the listener names no slot.
    pub closed spec fn wf(&self) -> bool {
        self.conns.wf() && self.listener < self.conns@.first
    }

    /// In a well-formed reactor the table is consistent and the listener has
    /// no slot.
    pub proof fn lemma_wf(&self)
        requires
            self.wf(),
        ensures
            consistent(self@.table),
            self@.listener < self@.table.first,
    {
        self.conns.lemma_consistent();
    }

    /// A reactor for a listener with the token `listener` and for `capacity`
    /// connections, whose tokens start at `first`.
    pub fn new(listener: usize, first: usize, capacity: usize) -> (reactor: Reactor)
        requires
            listener < first,
            first + capacity <= usize::MAX,
        ensures
            reactor.wf(),
            reactor@ == (ReactorView { listener, table: empty_table(first, capacity) }),
    {
        Reactor { listener, conns: ConnectionTable::new(first, capacity) }
    }

    /// The token of the listener.
    pub fn listener(&self) -> (token: usize)
        ensures
            token == self@.listener,
    {
        self.listener
    }

    /// The table of connections.
    pub fn connections(&self) -> (table: &ConnectionTable)
        ensures
            table@ == self@.table,
            self.wf() ==> table.wf(),
    {
        &self.conns
    }

    /// Answers a hangup or an error on the socket of `token`.
    pub fn hangup(&mut self, token: usize) -> (action: Action)
        requires
            old(self).wf(),
        ensures
            final(self).wf(),
            (final(self)@, action) == on_hangup(old(self)@, token),
    {
        if self.conns.remove(token) {
            Action::Close(token)
        } else {
            Action::Idle
        }
    }

    /// Answers what the poller reported of `token`.
    pub fn ready(&mut self, token: usize, events: Readiness) -> (action: Action)
        requires
            old(self).wf(),
        ensures
            final(self).wf(),
            (final(self)@, action) == on_ready(old(self)@, token, events),
    {
        if events.error || events.hup {
            return self.hangup(token);
        }
        if events.readable {
            if token == self.listener {
                return Action::Accept;
            }
            return match self.conns.get(token) {
                Some(conn) => if conn.state() == ConnState::AwaitingRead {
                    Action::Read(token)
                } else {
                    Action::Idle
                },
                None => Action::Idle,
            };
        }
        if events.writable {
            return match self.conns.get(token) {
                Some(conn) => if conn.state() == ConnState::AwaitingWrite {
                    Action::Write(token)
                } else {
                    Action::Idle
                },
                None => Action::Idle,
            };
        }
        Action::Idle
    }

    /// Answers a connection that the listener accepted.
    pub fn accept(&mut self) -> (action: Action)
        requires
            old(self).wf(),
        ensures
            final(self).wf(),
            (final(self)@, action) == on_accepted(old(self)@),
    {
        match self.conns.insert() {
            Some(token) => {
                self.conns.register(token);
                Action::Arm(token, Interest { readable: true, writable: false })
            },
            None => Action::Refuse,
        }
    }

    /// Answers a read on the socket of `token` that brought `data`.
    pub fn readable(&mut self, token: usize, data: &[u8]) -> (action: Action)
        requires
            old(self).wf(),
        ensures
            final(self).wf(),
            (final(self)@, action) == on_received(old(self)@, token, data@),
    {
        let (interest, serial) = match self.conns.get(token) {
            Some(conn) => if conn.state() == ConnState::AwaitingRead {
                (conn.interest(), conn.serial())
            } else {
                return Action::Idle;
            },
            None => {
                return Action::Idle;
            },
        };
        if data.len() == 0 {
            return Action::Arm(token, interest);
        }
        self.conns.receive(token, data);
        Action::Dispatch(token, serial)
    }

    /// Answers the response that the handler which was given `token` and
    /// `serial` produced.
    pub fn notify(&mut self, token: usize, serial: u64, output: Vec<u8>) -> (action: Action)
        requires
            old(self).wf(),
        ensures
            final(self).wf(),
            (final(self)@, action) == on_notify(old(self)@, token, serial, output@),
    {
        let waits = match self.conns.get(token) {
            Some(conn) => conn.serial() == serial && conn.state() == ConnState::Dispatching,
            None => false,
        };
        if waits {
            self.conns.complete(token, output);
            Action::Arm(token, Interest { readable: false, writable: true })
        } else {
            Action::Idle
        }
    }

    /// Answers a write on the socket of `token` that took `written` bytes.
    pub fn sent(&mut self, token: usize, written: usize) -> (action: Action)
        requires
            old(self).wf(),
        ensures
            final(self).wf(),
            (final(self)@, action) == on_sent(old(self)@, token, written),
    {
        let (interest, left) = match self.conns.get(token) {
            Some(conn) => if conn.state() == ConnState::AwaitingWrite {
                (conn.interest(), conn.outbound().len())
            } else {
                return Action::Idle;
            },
            None => {
                return Action::Idle;
            },
        };
        if written >= left {
            self.conns.remove(token);
            Action::Close(token)
        } else {
            self.conns.send(token, written);
            Action::Arm(token, interest)
        }
    }
}

} // verus!
