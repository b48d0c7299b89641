//! The table of live connections, keyed by event token.
//!
//! The listeners of a server have the tokens below their number. The
//! first connection gets the token one past that number, and every later
//! connection the next token. A token is never given out twice, so an
//! event for a token can only mean the connection that was accepted under
//! it.

use std::collections::HashMap;
use vstd::prelude::*;
use vstd::std_specs::hash::*;
use vstd::std_specs::iter::IteratorSpec;
use crate::reactor::{
    after_data, after_response, after_write, interest_of, message_after_data, timed_out,
    Connection, ConnectionView, Interest, ReadAction, ReadEvent, WriteAction, WriteEvent,
};

verus! {

/// The table of live connections of one server.
#[derive(Debug)]
pub struct ConnectionTable {
    listeners: usize,
    next_token: usize,
    clients: HashMap<usize, Connection>,
}

/// The state of a table: the number of listeners, the token that the next
/// connection gets, and the live connections by their tokens.
pub ghost struct TableView {
    pub listeners: usize,
    pub next_token: usize,
    pub clients: Map<usize, ConnectionView>,
}

/// The states of the connections of a map, by their tokens.
pub open spec fn states(clients: Map<usize, Connection>) -> Map<usize, ConnectionView> {
    Map::new(|token: usize| clients.contains_key(token), |token: usize| clients[token]@)
}

impl View for ConnectionTable {
    type V = TableView;

    closed spec fn view(&self) -> TableView {
        TableView {
            listeners: self.listeners,
            next_token: self.next_token,
            clients: states(self.clients@),
        }
    }
}

/// The state of a connection that was accepted at time `now`.
pub open spec fn accepted(now: u64) -> ConnectionView {
    ConnectionView {
        read_buffer: Seq::empty(),
        write_buffer: Seq::empty(),
        is_writing: false,
        last_active: now,
    }
}

/// The table is well formed: the token of every connection lies above
/// those of the listeners and below the next token.
pub open spec fn well_formed(table: TableView) -> bool {
    &&& table.listeners < table.next_token
    &&& forall|token: usize| #[trigger]
        table.clients.contains_key(token) ==> table.listeners < token < table.next_token
}

/// The tokens of the connections that a sweep at time `now` closes: those
/// that have timed out.
pub open spec fn expired(clients: Map<usize, ConnectionView>, now: u64) -> Set<usize> {
    Set::new(|token: usize| clients.contains_key(token) && timed_out(clients[token], now))
}

/// The connections that are left after a sweep at time `now`.
pub open spec fn survivors(clients: Map<usize, ConnectionView>, now: u64) -> Map<
    usize,
    ConnectionView,
> {
    clients.remove_keys(expired(clients, now))
}

/// Every connection that has timed out at the time of a sweep is closed
/// by it, whatever it was doing, and no other: a connection that has not
/// timed out stays, in the state it had.
pub proof fn lemma_sweep(clients: Map<usize, ConnectionView>, now: u64, token: usize)
    requires
        clients.contains_key(token),
    ensures
        timed_out(clients[token], now) ==> expired(clients, now).contains(token) && !survivors(
            clients,
            now,
        ).contains_key(token),
        !timed_out(clients[token], now) ==> !expired(clients, now).contains(token) && survivors(
            clients,
            now,
        ).contains_key(token) && survivors(clients, now)[token] == clients[token],
        forall|other: usize| #[trigger]
            survivors(clients, now).contains_key(other) ==> clients.contains_key(other)
                && !timed_out(clients[other], now),
{
}

impl ConnectionTable {
    /// The table of a server with `listeners` listening sockets, without
    /// connections. `None` when no token is left for a connection.
    pub fn new(listeners: usize) -> (r: Option<ConnectionTable>)
        ensures
            match r {
                Some(table) => table@ == (TableView {
                    listeners,
                    next_token: (listeners + 1) as usize,
                    clients: Map::empty(),
                }) && well_formed(table@),
                None => listeners == usize::MAX,
            },
    {
        if listeners == usize::MAX {
            return None;
        }
        let table = ConnectionTable { listeners, next_token: listeners + 1, clients: HashMap::new() };
        assert(table@.clients =~= Map::<usize, ConnectionView>::empty());
        Some(table)
    }

    /// Number of live connections.
    pub fn len(&self) -> (n: usize)
        ensures
            n == self@.clients.len(),
    {
        broadcast use group_hash_axioms;

        assert(self@.clients.dom() =~= self.clients@.dom());
        self.clients.len()
    }

    /// Whether the token is that of a listener.
    pub fn is_listener(&self, token: usize) -> (r: bool)
        ensures
            r == (token < self@.listeners),
    {
        token < self.listeners
    }

    /// What the connection with the token waits for; `None` when there is
    /// no such connection.
    pub fn interest(&self, token: usize) -> (r: Option<Interest>)
        ensures
            match r {
                Some(interest) => self@.clients.contains_key(token) && interest == interest_of(
                    self@.clients[token],
                ),
                None => !self@.clients.contains_key(token),
            },
    {
        broadcast use group_hash_axioms;

        match self.clients.get(&token) {
            Some(conn) => Some(conn.interest()),
            None => None,
        }
    }

    /// The bytes that the connection with the token has still to write;
    /// `None` when there is no such connection.
    pub fn pending(&self, token: usize) -> (r: Option<&Vec<u8>>)
        ensures
            match r {
                Some(bytes) => self@.clients.contains_key(token) && bytes@
                    == self@.clients[token].write_buffer,
                None => !self@.clients.contains_key(token),
            },
    {
        broadcast use group_hash_axioms;

        match self.clients.get(&token) {
            Some(conn) => Some(&conn.write_buffer),
            None => None,
        }
    }

    /// Takes a connection in that was accepted at time `now`, and returns
    /// its token: the next one, which no listener and no connection has.
    /// `None`, and no change, when the tokens have run out.
    pub fn accept(&mut self, now: u64) -> (r: Option<usize>)
        ensures
            well_formed(old(self)@) ==> well_formed(final(self)@),
            match r {
                Some(token) => token == old(self)@.next_token && (well_formed(old(self)@)
                    ==> !old(self)@.clients.contains_key(token)) && final(self)@ == (TableView {
                    next_token: (token + 1) as usize,
                    clients: old(self)@.clients.insert(token, accepted(now)),
                    ..old(self)@
                }),
                None => old(self)@.next_token == usize::MAX && final(self)@ == old(self)@,
            },
    {
        broadcast use group_hash_axioms;

        if self.next_token == usize::MAX {
            return None;
        }
        let token: usize = self.next_token;
        let ghost before = self@;
        self.clients.insert(token, Connection::new(now));
        self.next_token = token + 1;
        proof {
            assert(self@.clients =~= before.clients.insert(token, accepted(now)));
            if well_formed(before) {
                assert forall|other: usize| #[trigger]
                    self@.clients.contains_key(other) implies self@.listeners < other
                    < self@.next_token by {
                    if other != token {
                        assert(before.clients.contains_key(other));
                    }
                }
            }
        }
        Some(token)
    }

    /// Drops the connection with the token, if there is one.
    pub fn close(&mut self, token: usize)
        ensures
            well_formed(old(self)@) ==> well_formed(final(self)@),
            final(self)@ == (TableView {
                clients: old(self)@.clients.remove(token),
                ..old(self)@
            }),
    {
        broadcast use group_hash_axioms;

        let ghost before = self@;
        let _ = self.clients.remove(&token);
        proof {
            assert(self@.clients =~= before.clients.remove(token));
            if well_formed(before) {
                assert forall|other: usize| #[trigger]
                    self@.clients.contains_key(other) implies self@.listeners < other
                    < self@.next_token by {
                    assert(before.clients.contains_key(other));
                }
            }
        }
    }

    /// Takes note that an operation on the socket of the connection with
    /// the token failed: the socket could not be registered, reregistered
    /// or deregistered. That connection is dropped. Every other connection
    /// stays as it is, and the event loop goes on.
    pub fn on_socket_failure(&mut self, token: usize)
        ensures
            well_formed(old(self)@) ==> well_formed(final(self)@),
            final(self)@ == (TableView {
                clients: old(self)@.clients.remove(token),
                ..old(self)@
            }),
    {
        self.close(token)
    }

    /// Takes the connection with the token out of the table, if there is
    /// one.
    fn take(&mut self, token: usize) -> (r: Option<Connection>)
        ensures
            well_formed(old(self)@) ==> well_formed(final(self)@),
            final(self)@ == (TableView {
                clients: old(self)@.clients.remove(token),
                ..old(self)@
            }),
            match r {
                Some(conn) => old(self)@.clients.contains_key(token) && conn@
                    == old(self)@.clients[token],
                None => !old(self)@.clients.contains_key(token),
            },
    {
        broadcast use group_hash_axioms;

        let ghost before = self@;
        let taken = self.clients.remove(&token);
        proof {
            assert(self@.clients =~= before.clients.remove(token));
            if well_formed(before) {
                assert forall|other: usize| #[trigger]
                    self@.clients.contains_key(other) implies self@.listeners < other
                    < self@.next_token by {
                    assert(before.clients.contains_key(other));
                }
            }
        }
        taken
    }

    /// Puts a connection into the table under the token.
    fn put(&mut self, token: usize, conn: Connection)
        ensures
            final(self)@ == (TableView {
                clients: old(self)@.clients.insert(token, conn@),
                ..old(self)@
            }),
    {
        broadcast use group_hash_axioms;

        let ghost before = self@;
        self.clients.insert(token, conn);
        proof {
            assert(self@.clients =~= before.clients.insert(token, conn@));
        }
    }

    /// Takes the outcome of one read on the connection with the token, at
    /// time `now`. The connection takes the event as `Connection::on_read`
    /// says; a connection that is to be closed leaves the table. Without
    /// such a connection nothing happens.
    pub fn on_read(&mut self, token: usize, event: ReadEvent, now: u64) -> (action: ReadAction)
        ensures
            well_formed(old(self)@) ==> well_formed(final(self)@),
            final(self)@.listeners == old(self)@.listeners,
            final(self)@.next_token == old(self)@.next_token,
            if !old(self)@.clients.contains_key(token) {
                action is Idle && final(self)@ == old(self)@
            } else {
                let conn = old(self)@.clients[token];
                if conn.is_writing {
                    action is Idle && final(self)@ == old(self)@
                } else {
                    match event {
                        ReadEvent::Eof | ReadEvent::Failed => action is Close && final(self)@.clients == old(self)@.clients.remove(token),
                        ReadEvent::WouldBlock => action is Idle && final(self)@ == old(self)@,
                        ReadEvent::Data(data) => final(self)@.clients == old(self)@.clients.insert(
                            token,
                            after_data(conn, data@, now),
                        ) && match message_after_data(conn, data@) {
                            Some(message) => action is Dispatch && action->Dispatch_0@ == message,
                            None => action is KeepReading,
                        },
                    }
                }
            },
    {
        let ghost before = self@;
        let mut conn = match self.take(token) {
            Some(conn) => conn,
            None => {
                proof {
                    assert(self@.clients =~= before.clients);
                }
                return ReadAction::Idle;
            },
        };
        let action = conn.on_read(event, now);
        match action {
            ReadAction::Close => ReadAction::Close,
            other => {
                self.put(token, conn);
                proof {
                    assert(self@.clients =~= before.clients.insert(token, conn@));
                    if conn@ == before.clients[token] {
                        assert(self@.clients =~= before.clients);
                    }
                    if well_formed(before) {
                        assert forall|t: usize| #[trigger]
                            self@.clients.contains_key(t) implies self@.listeners < t
                            < self@.next_token by {
                            assert(before.clients.contains_key(t));
                        }
                    }
                }
                other
            },
        }
    }

    /// Queues the response to the message that the connection with the
    /// token handed out. From now on that connection writes. Without such
    /// a connection nothing happens.
    pub fn respond(&mut self, token: usize, response: Vec<u8>)
        ensures
            well_formed(old(self)@) ==> well_formed(final(self)@),
            if old(self)@.clients.contains_key(token) {
                final(self)@ == (TableView {
                    clients: old(self)@.clients.insert(
                        token,
                        after_response(old(self)@.clients[token], response@),
                    ),
                    ..old(self)@
                })
            } else {
                final(self)@ == old(self)@
            },
    {
        let ghost before = self@;
        let mut conn = match self.take(token) {
            Some(conn) => conn,
            None => {
                proof {
                    assert(self@.clients =~= before.clients);
                }
                return ;
            },
        };
        conn.respond(response);
        self.put(token, conn);
        proof {
            assert(self@.clients =~= before.clients.insert(token, conn@));
            if well_formed(before) {
                assert forall|t: usize| #[trigger]
                    self@.clients.contains_key(t) implies self@.listeners < t
                    < self@.next_token by {
                    assert(before.clients.contains_key(t));
                }
            }
        }
    }

    /// Takes the outcome of one write on the connection with the token.
    /// The connection takes the event as `Connection::on_write` says; a
    /// connection that is to be closed leaves the table. Without such a
    /// connection nothing happens.
    pub fn on_write(&mut self, token: usize, event: WriteEvent) -> (action: WriteAction)
        ensures
            well_formed(old(self)@) ==> well_formed(final(self)@),
            final(self)@.listeners == old(self)@.listeners,
            final(self)@.next_token == old(self)@.next_token,
            if !old(self)@.clients.contains_key(token) {
                action is Idle && final(self)@ == old(self)@
            } else {
                let conn = old(self)@.clients[token];
                if !conn.is_writing {
                    action is Idle && final(self)@ == old(self)@
                } else {
                    match event {
                        WriteEvent::Failed => action is Close && final(self)@.clients == old(self)@.clients.remove(token),
                        WriteEvent::WouldBlock => action is Idle && final(self)@ == old(self)@,
                        WriteEvent::Wrote(n) => if after_write(conn, n).is_writing {
                            action is KeepWriting && final(self)@.clients == old(self)@.clients.insert(
                                token,
                                after_write(conn, n),
                            )
                        } else {
                            action is Close && final(self)@.clients == old(self)@.clients.remove(token)
                        },
                    }
                }
            },
    {
        let ghost before = self@;
        let mut conn = match self.take(token) {
            Some(conn) => conn,
            None => {
                proof {
                    assert(self@.clients =~= before.clients);
                }
                return WriteAction::Idle;
            },
        };
        let action = conn.on_write(event);
        match action {
            WriteAction::Close => WriteAction::Close,
            other => {
                self.put(token, conn);
                proof {
                    assert(self@.clients =~= before.clients.insert(token, conn@));
                    if conn@ == before.clients[token] {
                        assert(self@.clients =~= before.clients);
                    }
                    if well_formed(before) {
                        assert forall|t: usize| #[trigger]
                            self@.clients.contains_key(t) implies self@.listeners < t
                            < self@.next_token by {
                            assert(before.clients.contains_key(t));
                        }
                    }
                }
                other
            },
        }
    }

    /// The tokens of the connections that have timed out at time `now`,
    /// each once, in the order in which the map hands its keys out.
    fn idle(&self, now: u64) -> (closed: Vec<usize>)
        ensures
            closed@.no_duplicates(),
            closed@.to_set() == expired(self@.clients, now),
    {
        broadcast use group_hash_axioms;

        let mut closed: Vec<usize> = Vec::new();
        let ghost all = spec_keys_iter(&self.clients).remaining();
        let ghost mut picked: Seq<int> = Seq::empty();
        let keys = self.clients.keys();
        for token in it: keys
            invariant
                it.seq() == all,
                all.no_duplicates(),
                all.unref().to_set() == self.clients@.dom(),
                picked.len() == closed@.len(),
                forall|j: int|
                    0 <= j < closed@.len() ==> 0 <= #[trigger] picked[j] < it.index() && closed@[j]
                        == *all[picked[j]],
                forall|j: int|
                    0 <= j < closed@.len() ==> timed_out(
                        self@.clients[#[trigger] closed@[j]],
                        now,
                    ),
                forall|i: int|
                    0 <= i < it.index() && timed_out(self@.clients[*#[trigger] all[i]], now)
                        ==> closed@.contains(*all[i]),
                closed@.no_duplicates(),
        {
            let ghost at = it.index();
            let ghost before = closed@;
            proof {
                assert(all.unref()[at] == *token);
                assert(all.unref().to_set().contains(*token));
            }
            let conn = self.clients.get(token);
            let late: bool = match conn {
                Some(conn) => conn.is_timed_out(now),
                None => false,
            };
            if late {
                closed.push(*token);
                proof {
                    picked = picked.push(at);
                    assert forall|a: int, b: int|
                        0 <= a < closed@.len() && 0 <= b < closed@.len() && a != b implies closed@[a]
                        != closed@[b] by {
                        assert(all[picked[a]] != all[picked[b]]) by {
                            if a < before.len() && b < before.len() {
                                assert(before[a] != before[b]);
                            }
                        }
                    }
                }
            }
            proof {
                assert forall|i: int|
                    0 <= i < at + 1 && timed_out(
                        self@.clients[*#[trigger] all[i]],
                        now,
                    ) implies closed@.contains(*all[i]) by {
                    if i < at {
                        assert(before.contains(*all[i]));
                        let j = choose|j: int| 0 <= j < before.len() && before[j] == *all[i];
                        assert(closed@[j] == *all[i]);
                    } else {
                        assert(closed@[closed@.len() - 1] == *all[i]);
                    }
                }
            }
        }
        proof {
            assert forall|t: usize| closed@.to_set().contains(t) <==> expired(
                self@.clients,
                now,
            ).contains(t) by {
                if closed@.contains(t) {
                    let j = choose|j: int| 0 <= j < closed@.len() && closed@[j] == t;
                    assert(all.unref()[picked[j]] == t);
                    assert(all.unref().to_set().contains(t));
                }
                if self@.clients.contains_key(t) && timed_out(self@.clients[t], now) {
                    assert(all.unref().to_set().contains(t));
                    let i = choose|i: int| 0 <= i < all.unref().len() && all.unref()[i] == t;
                    assert(*all[i] == t);
                }
            }
            assert(closed@.to_set() =~= expired(self@.clients, now));
        }
        closed
    }

    /// The timeout sweep at time `now`: drops every connection that has
    /// timed out, whatever it was doing, and returns the tokens of the
    /// dropped connections, each once. The others stay as they are.
    pub fn sweep(&mut self, now: u64) -> (closed: Vec<usize>)
        ensures
            well_formed(old(self)@) ==> well_formed(final(self)@),
            closed@.no_duplicates(),
            closed@.to_set() == expired(old(self)@.clients, now),
            final(self)@ == (TableView {
                clients: survivors(old(self)@.clients, now),
                ..old(self)@
            }),
    {
        let ghost before = self@;
        let closed = self.idle(now);
        let mut k: usize = 0;
        while k < closed.len()
            invariant
                k <= closed@.len(),
                well_formed(before) ==> well_formed(self@),
                self@.listeners == before.listeners,
                self@.next_token == before.next_token,
                forall|t: usize| #[trigger]
                    self@.clients.contains_key(t) ==> before.clients.contains_key(t)
                        && self@.clients[t] == before.clients[t],
                forall|t: usize|
                    before.clients.contains_key(t) && !#[trigger] self@.clients.contains_key(t)
                        ==> closed@.contains(t),
                forall|j: int| 0 <= j < k ==> !self@.clients.contains_key(#[trigger] closed@[j]),
            decreases closed@.len() - k,
        {
            let ghost current = self@;
            self.close(closed[k]);
            proof {
                assert forall|t: usize|
                    before.clients.contains_key(t) && !#[trigger] self@.clients.contains_key(
                        t,
                    ) implies closed@.contains(t) by {
                    if t != closed@[k as int] {
                        assert(!current.clients.contains_key(t));
                    }
                }
            }
            k += 1;
        }
        proof {
            assert(self@.clients =~= survivors(before.clients, now)) by {
                assert forall|t: usize|
                    self@.clients.contains_key(t) <==> survivors(before.clients, now).contains_key(
                        t,
                    ) by {
                    if closed@.contains(t) {
                        let j = choose|j: int| 0 <= j < closed@.len() && closed@[j] == t;
                        assert(!self@.clients.contains_key(closed@[j]));
                        assert(closed@.to_set().contains(t));
                    }
                    if expired(before.clients, now).contains(t) {
                        assert(closed@.to_set().contains(t));
                    }
                }
            }
        }
        closed
    }
}

} // verus!
