//! The reactor core, without its sockets: the state of each connection and
//! the table of live connections, with the decisions that the event loop
//! takes on every readiness event, on every finished response and on every
//! timeout sweep.
//!
//! A connection is accepted, reads until its buffer holds one complete
//! message, hands the message out for dispatch, writes the response, and
//! is closed. It never reads again once it writes. The event loop owns the
//! sockets; it tells the reactor what a socket did and does to the socket
//! what the reactor answers.

use vstd::prelude::*;
use vstd::slice::*;
use crate::framer::{frame_message, framed};

verus! {

/// How long a connection may go without a successful read, in
/// milliseconds, before a sweep closes it: 30 seconds.
pub const CLIENT_TIMEOUT_MS: u64 = 30000;

/// What a connection waits for.
#[derive(Debug, Clone, Copy, PartialEq, Eq)]
pub enum Interest {
    Readable,
    Writable,
}

/// What one read on a connection's socket gave.
#[derive(Debug)]
pub enum ReadEvent {
    /// One or more bytes.
    Data(Vec<u8>),
    /// The end of the stream.
    Eof,
    /// Nothing now; the read would block.
    WouldBlock,
    /// An error.
    Failed,
}

/// What the event loop does after a read.
#[derive(Debug)]
pub enum ReadAction {
    /// Drop the connection.
    Close,
    /// Keep the connection registered for reading.
    KeepReading,
    /// Dispatch this message, hand the response to `respond`, and register
    /// the connection for writing.
    Dispatch(Vec<u8>),
    /// Nothing.
    Idle,
}

/// What one write on a connection's socket gave.
#[derive(Debug, Clone, Copy, PartialEq, Eq)]
pub enum WriteEvent {
    /// This many bytes were written.
    Wrote(usize),
    /// Nothing now; the write would block.
    WouldBlock,
    /// An error.
    Failed,
}

/// What the event loop does after a write.
#[derive(Debug, Clone, Copy, PartialEq, Eq)]
pub enum WriteAction {
    /// Shut the socket down, deregister it and drop the connection.
    Close,
    /// Keep the connection registered for writing.
    KeepWriting,
    /// Nothing.
    Idle,
}

/// The state of one connection: what was read and not yet consumed, what
/// is still to be written, whether a response is queued, and when the last
/// successful read was, in milliseconds on the event loop's clock.
#[derive(Debug)]
pub struct Connection {
    pub read_buffer: Vec<u8>,
    pub write_buffer: Vec<u8>,
    pub is_writing: bool,
    pub last_active: u64,
}

/// The state of a connection, with its buffers as byte sequences.
pub ghost struct ConnectionView {
    pub read_buffer: Seq<u8>,
    pub write_buffer: Seq<u8>,
    pub is_writing: bool,
    pub last_active: u64,
}

impl View for Connection {
    type V = ConnectionView;

    open spec fn view(&self) -> ConnectionView {
        ConnectionView {
            read_buffer: self.read_buffer@,
            write_buffer: self.write_buffer@,
            is_writing: self.is_writing,
            last_active: self.last_active,
        }
    }
}

/// What a connection in this state waits for: to write once a response is
/// queued, and to read before. Never both.
pub open spec fn interest_of(conn: ConnectionView) -> Interest {
    if conn.is_writing {
        Interest::Writable
    } else {
        Interest::Readable
    }
}

/// A connection waits for exactly one thing at any time: to read or to
/// write, never both. It waits to write exactly while a response is
/// queued.
pub proof fn lemma_one_interest(conn: ConnectionView)
    ensures
        (interest_of(conn) is Readable) != (interest_of(conn) is Writable),
        interest_of(conn) is Writable <==> conn.is_writing,
{
}

/// A connection that writes never reads again: a write leaves it writing,
/// or with nothing more to write, which closes it. A queued response is
/// written from its front, byte by byte in order.
pub proof fn lemma_writing_ends_in_close(conn: ConnectionView, n: usize)
    requires
        conn.is_writing,
    ensures
        after_write(conn, n).is_writing || after_write(conn, n).write_buffer.len() == 0,
        after_write(conn, n).read_buffer == conn.read_buffer,
        after_write(conn, n).last_active == conn.last_active,
        conn.write_buffer == conn.write_buffer.take(flushed(conn, n)) + after_write(
            conn,
            n,
        ).write_buffer,
{
    assert(conn.write_buffer =~= conn.write_buffer.take(flushed(conn, n))
        + conn.write_buffer.skip(flushed(conn, n)));
}

/// A connection has been idle for too long at time `now`: its last
/// successful read is more than the timeout ago.
pub open spec fn timed_out(conn: ConnectionView, now: u64) -> bool {
    now - conn.last_active > CLIENT_TIMEOUT_MS
}

/// The state after a read that gave `data` at time `now`: the data is
/// appended, the clock is noted, and a complete message at the front of the
/// buffer is consumed.
pub open spec fn after_data(conn: ConnectionView, data: Seq<u8>, now: u64) -> ConnectionView {
    let buffer = conn.read_buffer + data;
    ConnectionView {
        read_buffer: match framed(buffer) {
            Some(n) => buffer.skip(n),
            None => buffer,
        },
        last_active: now,
        ..conn
    }
}

/// The message that a read that gave `data` completes, if it completes
/// one: the exact prefix of the buffer that the framer asks to consume.
pub open spec fn message_after_data(conn: ConnectionView, data: Seq<u8>) -> Option<Seq<u8>> {
    let buffer = conn.read_buffer + data;
    match framed(buffer) {
        Some(n) => Some(buffer.take(n)),
        None => None,
    }
}

/// The state after `response` was queued.
pub open spec fn after_response(conn: ConnectionView, response: Seq<u8>) -> ConnectionView {
    ConnectionView { write_buffer: response, is_writing: true, ..conn }
}

/// How many bytes a write that reports `n` takes off the write buffer.
pub open spec fn flushed(conn: ConnectionView, n: usize) -> int {
    if n <= conn.write_buffer.len() {
        n as int
    } else {
        conn.write_buffer.len() as int
    }
}

/// The state after a write that reports `n` bytes: they are gone from the
/// front of the write buffer, and the connection stops writing once the
/// buffer is empty.
pub open spec fn after_write(conn: ConnectionView, n: usize) -> ConnectionView {
    let rest = conn.write_buffer.skip(flushed(conn, n));
    ConnectionView { write_buffer: rest, is_writing: rest.len() > 0, ..conn }
}

impl Connection {
    /// A connection that was accepted at time `now`: empty buffers, not
    /// writing.
    pub fn new(now: u64) -> (conn: Connection)
        ensures
            conn@ == (ConnectionView {
                read_buffer: Seq::empty(),
                write_buffer: Seq::empty(),
                is_writing: false,
                last_active: now,
            }),
    {
        Connection {
            read_buffer: Vec::new(),
            write_buffer: Vec::new(),
            is_writing: false,
            last_active: now,
        }
    }

    /// What the connection waits for.
    pub fn interest(&self) -> (r: Interest)
        ensures
            r == interest_of(self@),
    {
        if self.is_writing {
            Interest::Writable
        } else {
            Interest::Readable
        }
    }

    /// Whether the connection has been idle for too long at time `now`.
    pub fn is_timed_out(&self, now: u64) -> (r: bool)
        ensures
            r == timed_out(self@, now),
    {
        now > self.last_active && now - self.last_active > CLIENT_TIMEOUT_MS
    }

    /// Takes the outcome of one read at time `now`.
    ///
    /// A connection that writes does not read: the event is passed over.
    /// Otherwise the end of the stream and an error close the connection,
    /// a read that would block changes nothing, and data is appended to
    /// the read buffer. If the buffer then holds a complete message, the
    /// message is taken off its front and handed out for dispatch; what
    /// follows it stays buffered.
    pub fn on_read(&mut self, event: ReadEvent, now: u64) -> (action: ReadAction)
        ensures
            old(self).is_writing ==> action is Idle && final(self)@ == old(self)@,
            !old(self).is_writing ==> match event {
                ReadEvent::Eof | ReadEvent::Failed => action is Close && final(self)@ == old(self)@,
                ReadEvent::WouldBlock => action is Idle && final(self)@ == old(self)@,
                ReadEvent::Data(data) => final(self)@ == after_data(old(self)@, data@, now)
                    && match message_after_data(old(self)@, data@) {
                    Some(message) => action is Dispatch && action->Dispatch_0@ == message,
                    None => action is KeepReading,
                },
            },
    {
        if self.is_writing {
            return ReadAction::Idle;
        }
        match event {
            ReadEvent::Eof => ReadAction::Close,
            ReadEvent::Failed => ReadAction::Close,
            ReadEvent::WouldBlock => ReadAction::Idle,
            ReadEvent::Data(data) => {
                self.read_buffer.extend_from_slice(data.as_slice());
                self.last_active = now;
                let ghost buffer = self.read_buffer@;
                assert(buffer == old(self).read_buffer@ + data@);
                match frame_message(self.read_buffer.as_slice()) {
                    Some(n) => {
                        let rest = self.read_buffer.split_off(n);
                        let mut message = rest;
                        std::mem::swap(&mut message, &mut self.read_buffer);
                        assert(message@ =~= buffer.take(n as int));
                        assert(self.read_buffer@ =~= buffer.skip(n as int));
                        ReadAction::Dispatch(message)
                    },
                    None => ReadAction::KeepReading,
                }
            },
        }
    }

    /// Queues the response to the message that was dispatched. From now on
    /// the connection writes.
    pub fn respond(&mut self, response: Vec<u8>)
        ensures
            final(self)@ == after_response(old(self)@, response@),
    {
        self.write_buffer = response;
        self.is_writing = true;
    }

    /// Takes the outcome of one write.
    ///
    /// A connection that does not write passes the event over. Otherwise an
    /// error closes the connection, a write that would block changes
    /// nothing, and the bytes that were written leave the front of the
    /// write buffer. Once the buffer is empty the connection is closed.
    pub fn on_write(&mut self, event: WriteEvent) -> (action: WriteAction)
        ensures
            !old(self).is_writing ==> action is Idle && final(self)@ == old(self)@,
            old(self).is_writing ==> match event {
                WriteEvent::Failed => action is Close && final(self)@ == old(self)@,
                WriteEvent::WouldBlock => action is Idle && final(self)@ == old(self)@,
                WriteEvent::Wrote(n) => final(self)@ == after_write(old(self)@, n) && (
                final(self).is_writing ==> action is KeepWriting) && (!final(self).is_writing
                    ==> action is Close),
            },
    {
        if !self.is_writing {
            return WriteAction::Idle;
        }
        match event {
            WriteEvent::Failed => WriteAction::Close,
            WriteEvent::WouldBlock => WriteAction::Idle,
            WriteEvent::Wrote(n) => {
                let ghost before = self.write_buffer@;
                let k: usize = if n <= self.write_buffer.len() {
                    n
                } else {
                    self.write_buffer.len()
                };
                let rest = self.write_buffer.split_off(k);
                self.write_buffer = rest;
                assert(self.write_buffer@ =~= before.skip(k as int));
                if self.write_buffer.len() == 0 {
                    self.is_writing = false;
                    WriteAction::Close
                } else {
                    WriteAction::KeepWriting
                }
            },
        }
    }
}

} // verus!
