//! The table of connections: a fixed number of slots, each named by a token,
//! and a list of the slots that are free.

use crate::connection::{
    accepted, completed, flushed, following, next_serial, received, registered, Connection,
    ConnectionView,
};
use vstd::prelude::*;

verus! {

/// A table as the contracts see it: the connections by token, the free tokens
/// in the order in which they are given out, the last one first, and for each
/// slot the serial number of the last connection that took it.
pub struct TableView {
    pub first: usize,
    pub capacity: usize,
    pub conns: Map<usize, ConnectionView>,
    pub free: Seq<usize>,
    pub serials: Seq<u64>,
}

/// Whether `token` names a slot of the table.
pub open spec fn in_range(table: TableView, token: usize) -> bool {
    table.first <= token < table.first + table.capacity
}

/// What holds of every table: a slot is either free or holds a connection
/// that knows its token and has the serial number of its slot, and no slot is
/// listed free twice.
pub open spec fn consistent(table: TableView) -> bool {
    &&& table.first + table.capacity <= usize::MAX
    &&& table.serials.len() == table.capacity
    &&& forall|token: usize| #[trigger]
        table.conns.contains_key(token) ==> in_range(table, token) && table.conns[token].token
            == token && table.conns[token].serial == table.serials[token - table.first]
    &&& forall|k: int|
        0 <= k < table.free.len() ==> in_range(table, #[trigger] table.free[k])
            && !table.conns.contains_key(table.free[k])
    &&& forall|i: int, j: int|
        0 <= i < j < table.free.len() ==> table.free[i] != table.free[j]
    &&& forall|token: usize|
        in_range(table, token) ==> #[trigger] table.conns.contains_key(token)
            || table.free.contains(token)
}

/// A table without connections: every slot is free, and the slots are given
/// out from the first on.
pub open spec fn empty_table(first: usize, capacity: usize) -> TableView {
    TableView {
        first,
        capacity,
        conns: Map::empty(),
        free: Seq::new(capacity as nat, |k: int| (first + capacity - 1 - k) as usize),
        serials: Seq::new(capacity as nat, |k: int| 0u64),
    }
}

/// The table after a connection was accepted: it takes the slot that is last
/// in the free list, and the serial number that follows the one of the
/// connection that had the slot before. A full table stays as it is.
pub open spec fn after_insert(table: TableView) -> TableView {
    if table.free.len() == 0 {
        table
    } else {
        let token = table.free.last();
        let serial = next_serial(table.serials[token - table.first]);
        TableView {
            conns: table.conns.insert(token, accepted(token, serial)),
            free: table.free.drop_last(),
            serials: table.serials.update(token - table.first, serial),
            ..table
        }
    }
}

/// The table after the connection `token` was removed: its slot is the next to
/// be given out.
pub open spec fn after_remove(table: TableView, token: usize) -> TableView {
    if table.conns.contains_key(token) {
        TableView { conns: table.conns.remove(token), free: table.free.push(token), ..table }
    } else {
        table
    }
}

/// The table after the connection `token` changed to `conn`.
pub open spec fn after_update(table: TableView, token: usize, conn: ConnectionView) -> TableView {
    TableView { conns: table.conns.insert(token, conn), ..table }
}

/// A table stays consistent when a connection leaves it.
pub proof fn lemma_remove_consistent(table: TableView, token: usize)
    requires
        consistent(table),
    ensures
        consistent(after_remove(table, token)),
{
    let after = after_remove(table, token);
    if table.conns.contains_key(token) {
        assert forall|t: usize| in_range(after, t) implies #[trigger]
            after.conns.contains_key(t) || after.free.contains(t) by {
            if t == token {
                assert(after.free[table.free.len() as int] == token);
            } else if !table.conns.contains_key(t) {
                assert(table.free.contains(t));
                let k = choose|k: int| 0 <= k < table.free.len() && table.free[k] == t;
                assert(after.free[k] == t);
            }
        }
    }
}

/// A consistent table holds finitely many connections.
pub proof fn lemma_connections_finite(table: TableView)
    requires
        consistent(table),
    ensures
        table.conns.dom().finite(),
{
    let slots = Set::new(|token: usize| in_range(table, token));
    let count = table.capacity as int;
    let first = table.first as int;
    let numbers = vstd::set_lib::set_int_range(0, count);
    vstd::set_lib::lemma_int_range(0, count);
    let shifted = numbers.map(|i: int| (first + i) as usize);
    numbers.lemma_map_finite(|i: int| (first + i) as usize);
    assert forall|token: usize| slots.contains(token) implies shifted.contains(token) by {
        assert(numbers.contains(token - first));
    }
    vstd::set_lib::lemma_len_subset(slots, shifted);
    assert(table.conns.dom().subset_of(slots));
    vstd::set_lib::lemma_len_subset(table.conns.dom(), slots);
}

/// A fixed-size table of connections.
pub struct ConnectionTable {
    first: usize,
    slots: Vec<Option<Connection>>,
    free: Vec<usize>,
    serials: Vec<u64>,
}

impl View for ConnectionTable {
    type V = TableView;

    closed spec fn view(&self) -> TableView {
        TableView {
            first: self.first,
            capacity: self.slots@.len() as usize,
            conns: Map::new(
                |token: usize|
                    self.first <= token < self.first + self.slots@.len() && self.slots@[token
                        - self.first] is Some,
                |token: usize| self.slots@[token - self.first]->Some_0@,
            ),
            free: self.free@.map_values(|i: usize| (self.first + i) as usize),
            serials: self.serials@,
        }
    }
}

impl ConnectionTable {
    /// What holds of every table that `new` made.
    pub closed spec fn wf(&self) -> bool {
        &&& self.first + self.slots@.len() <= usize::MAX
        &&& self.serials@.len() == self.slots@.len()
        &&& forall|i: int|
            0 <= i < self.slots@.len() ==> ((#[trigger] self.slots@[i]) matches Some(conn)
                ==> conn@.token == self.first + i && conn@.serial == self.serials@[i])
        &&& forall|k: int|
            0 <= k < self.free@.len() ==> (#[trigger] self.free@[k]) < self.slots@.len()
                && self.slots@[self.free@[k] as int] is None
        &&& forall|i: int, j: int| 0 <= i < j < self.free@.len() ==> self.free@[i] != self.free@[j]
        &&& forall|i: int|
            0 <= i < self.slots@.len() ==> (#[trigger] self.slots@[i]) is Some
                || self.free@.contains(i as usize)
    }

    /// A well-formed table is consistent.
    pub proof fn lemma_consistent(&self)
        requires
            self.wf(),
        ensures
            consistent(self@),
    {
        let table = self@;
        assert forall|k: int| 0 <= k < table.free.len() implies in_range(
            table,
            #[trigger] table.free[k],
        ) && !table.conns.contains_key(table.free[k]) by {
            assert(self.free@[k] < self.slots@.len());
        }
        assert forall|i: int, j: int| 0 <= i < j < table.free.len() implies table.free[i]
            != table.free[j] by {
            assert(self.free@[i] != self.free@[j]);
        }
        assert forall|token: usize| in_range(table, token) implies #[trigger]
            table.conns.contains_key(token) || table.free.contains(token) by {
            let i = token - self.first;
            if self.slots@[i] is None {
                assert(self.free@.contains(i as usize));
                let k = choose|k: int| 0 <= k < self.free@.len() && self.free@[k] == i as usize;
                assert(table.free[k] == token);
            }
        }
    }

    /// A table of `capacity` free slots whose tokens start at `first`. The
    /// slots are given out from the first on.
    pub fn new(first: usize, capacity: usize) -> (table: ConnectionTable)
        requires
            first + capacity <= usize::MAX,
        ensures
            table.wf(),
            table@ == empty_table(first, capacity),
    {
        let mut slots: Vec<Option<Connection>> = Vec::new();
        let mut free: Vec<usize> = Vec::new();
        let mut serials: Vec<u64> = Vec::new();
        let mut i: usize = 0;
        while i < capacity
            invariant
                0 <= i <= capacity,
                slots@.len() == i,
                free@.len() == i,
                serials@.len() == i,
                forall|k: int| 0 <= k < i ==> (#[trigger] slots@[k]) is None,
                forall|k: int| 0 <= k < i ==> (#[trigger] free@[k]) == capacity - 1 - k,
                forall|k: int| 0 <= k < i ==> (#[trigger] serials@[k]) == 0,
            decreases capacity - i,
        {
            slots.push(None);
            free.push(capacity - 1 - i);
            serials.push(0);
            i += 1;
        }
        let table = ConnectionTable { first, slots, free, serials };
        proof {
            assert(table@.conns =~= Map::<usize, ConnectionView>::empty());
            assert(table@.serials =~= Seq::new(capacity as nat, |k: int| 0u64));
            assert(table@.free =~= Seq::new(
                capacity as nat,
                |k: int| (first + capacity - 1 - k) as usize,
            ));
            assert forall|i: int| 0 <= i < table.slots@.len() implies (
            #[trigger] table.slots@[i]) is Some || table.free@.contains(i as usize) by {
                assert(table.free@[capacity - 1 - i] == i as usize);
            }
        }
        table
    }

    /// The number of slots.
    pub fn capacity(&self) -> (n: usize)
        ensures
            n == self@.capacity,
    {
        self.slots.len()
    }

    /// The number of free slots.
    pub fn available(&self) -> (n: usize)
        ensures
            n == self@.free.len(),
    {
        self.free.len()
    }

    /// Whether the table holds a connection for `token`.
    pub fn contains(&self, token: usize) -> (r: bool)
        ensures
            r == self@.conns.contains_key(token),
    {
        token >= self.first && token - self.first < self.slots.len() && self.slots[token
            - self.first].is_some()
    }

    /// The connection for `token`.
    pub fn get(&self, token: usize) -> (r: Option<&Connection>)
        ensures
            r is Some <==> self@.conns.contains_key(token),
            r is Some ==> r->Some_0@ == self@.conns[token],
    {
        if token >= self.first && token - self.first < self.slots.len() {
            self.slots[token - self.first].as_ref()
        } else {
            None
        }
    }

    /// Gives a free slot to a new connection and returns its token. A full
    /// table gives none.
    pub fn insert(&mut self) -> (r: Option<usize>)
        requires
            old(self).wf(),
        ensures
            final(self).wf(),
            final(self)@ == after_insert(old(self)@),
            r == if old(self)@.free.len() == 0 {
                None
            } else {
                Some(old(self)@.free.last())
            },
    {
        match self.free.pop() {
            Some(i) => {
                let token = self.first + i;
                let serial = following(self.serials[i]);
                self.serials.set(i, serial);
                self.slots.set(i, Some(Connection::new(token, serial)));
                proof {
                    let k = old(self).free@.len() - 1;
                    assert(old(self).free@[k] == i);
                    assert(old(self)@.free.last() == token);
                    assert(self@.free =~= old(self)@.free.drop_last());
                    assert(self@.conns =~= old(self)@.conns.insert(
                        token,
                        accepted(token, serial),
                    ));
                    assert(self@.serials =~= old(self)@.serials.update(i as int, serial));
                    assert forall|j: int| 0 <= j < self.slots@.len() implies (
                    #[trigger] self.slots@[j]) is Some || self.free@.contains(j as usize) by {
                        if j != i && old(self).slots@[j] is None {
                            assert(old(self).free@.contains(j as usize));
                            let n = choose|n: int|
                                0 <= n < old(self).free@.len() && old(self).free@[n] == j as usize;
                            assert(self.free@[n] == j as usize);
                        }
                    }
                    assert forall|n: int| 0 <= n < self.free@.len() implies (
                    #[trigger] self.free@[n]) < self.slots@.len()
                        && self.slots@[self.free@[n] as int] is None by {
                        assert(self.free@[n] == old(self).free@[n]);
                        assert(old(self).free@[n] != old(self).free@[k]);
                    }
                }
                Some(token)
            },
            None => {
                assert(self@.free =~= old(self)@.free);
                assert(self@.conns =~= old(self)@.conns);
                assert(self@.serials =~= old(self)@.serials);
                None
            },
        }
    }

    /// Frees the slot of `token`. A token without a connection changes
    /// nothing.
    pub fn remove(&mut self, token: usize) -> (removed: bool)
        requires
            old(self).wf(),
        ensures
            final(self).wf(),
            final(self)@ == after_remove(old(self)@, token),
            removed == old(self)@.conns.contains_key(token),
    {
        if !self.contains(token) {
            return false;
        }
        let i = token - self.first;
        self.slots.set(i, None);
        self.free.push(i);
        proof {
            assert(self@.free =~= old(self)@.free.push(token));
            assert(self@.conns =~= old(self)@.conns.remove(token));
            let n = old(self).free@.len() as int;
            assert forall|a: int, b: int| 0 <= a < b < self.free@.len() implies self.free@[a]
                != self.free@[b] by {
                if b == n {
                    assert(old(self).slots@[old(self).free@[a] as int] is None);
                }
            }
            assert forall|j: int| 0 <= j < self.slots@.len() implies (#[trigger] self.slots@[j])
                is Some || self.free@.contains(j as usize) by {
                if j == i {
                    assert(self.free@[n] == i);
                } else if old(self).slots@[j] is None {
                    let m = choose|m: int|
                        0 <= m < old(self).free@.len() && old(self).free@[m] == j as usize;
                    assert(self.free@[m] == j as usize);
                }
            }
        }
        true
    }

    /// Marks the connection `token` as registered with the poller.
    pub fn register(&mut self, token: usize)
        requires
            old(self).wf(),
            old(self)@.conns.contains_key(token),
        ensures
            final(self).wf(),
            final(self)@ == after_update(old(self)@, token, registered(old(self)@.conns[token])),
    {
        let i = token - self.first;
        match &mut self.slots[i] {
            Some(conn) => {
                conn.register();
            },
            None => {},
        }
        proof {
            self.lemma_updated(old(self), token);
        }
    }

    /// Hands the bytes that a read brought in to the connection `token`.
    pub fn receive(&mut self, token: usize, data: &[u8])
        requires
            old(self).wf(),
            old(self)@.conns.contains_key(token),
        ensures
            final(self).wf(),
            final(self)@ == after_update(
                old(self)@,
                token,
                received(old(self)@.conns[token], data@),
            ),
    {
        let i = token - self.first;
        match &mut self.slots[i] {
            Some(conn) => {
                conn.receive(data);
            },
            None => {},
        }
        proof {
            self.lemma_updated(old(self), token);
        }
    }

    /// Hands the response that the handler produced to the connection `token`.
    pub fn complete(&mut self, token: usize, output: Vec<u8>)
        requires
            old(self).wf(),
            old(self)@.conns.contains_key(token),
        ensures
            final(self).wf(),
            final(self)@ == after_update(
                old(self)@,
                token,
                completed(old(self)@.conns[token], output@),
            ),
    {
        let i = token - self.first;
        match &mut self.slots[i] {
            Some(conn) => {
                conn.complete(output);
            },
            None => {},
        }
        proof {
            self.lemma_updated(old(self), token);
        }
    }

    /// Notes that the socket of `token` took `written` bytes of the response,
    /// and tells whether the response is out.
    pub fn send(&mut self, token: usize, written: usize) -> (done: bool)
        requires
            old(self).wf(),
            old(self)@.conns.contains_key(token),
        ensures
            final(self).wf(),
            final(self)@ == after_update(
                old(self)@,
                token,
                flushed(old(self)@.conns[token], written),
            ),
            done == (written >= old(self)@.conns[token].outbound.len()),
    {
        let i = token - self.first;
        let done = match &mut self.slots[i] {
            Some(conn) => conn.send(written),
            None => true,
        };
        proof {
            self.lemma_updated(old(self), token);
        }
        done
    }

    /// A table in which one connection changed and kept its token is
    /// well-formed like the table before, and differs from it in that
    /// connection only.
    proof fn lemma_updated(&self, before: &ConnectionTable, token: usize)
        requires
            before.wf(),
            before@.conns.contains_key(token),
            self.first == before.first,
            self.free == before.free,
            self.serials == before.serials,
            self.slots@.len() == before.slots@.len(),
            self.slots@[token - self.first] is Some,
            self.slots@[token - self.first]->Some_0@.token == token,
            self.slots@[token - self.first]->Some_0@.serial == before@.conns[token].serial,
            forall|j: int|
                0 <= j < self.slots@.len() && j != token - self.first ==> self.slots@[j]
                    == before.slots@[j],
        ensures
            self.wf(),
            self@ == after_update(before@, token, self.slots@[token - self.first]->Some_0@),
    {
        assert(self@.conns =~= before@.conns.insert(
            token,
            self.slots@[token - self.first]->Some_0@,
        ));
        assert(self@.free =~= before@.free);
        assert forall|j: int| 0 <= j < self.slots@.len() implies (#[trigger] self.slots@[j])
            is Some || self.free@.contains(j as usize) by {
            if j != token - self.first {
                assert(before.slots@[j] is Some || before.free@.contains(j as usize));
            }
        }
        assert forall|k: int| 0 <= k < self.free@.len() implies (#[trigger] self.free@[k])
            < self.slots@.len() && self.slots@[self.free@[k] as int] is None by {
            assert(before.slots@[before.free@[k] as int] is None);
        }
    }
}

} // verus!
