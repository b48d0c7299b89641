//! The core of a small single-threaded HTTP/1.1 server, without its
//! sockets and files.
//!
//! The event loop of the server owns the sockets and the file system. It
//! tells this library what happened and does what the library answers:
//!
//! - `reactor` and `table` keep the state of every connection and decide
//!   what follows each read, each write and each timeout sweep;
//! - `framer` finds the end of the message at the front of a read buffer,
//!   with `chunked` for bodies in chunked transfer coding;
//! - `requests` parses a complete message and renders responses;
//! - `dispatch` resolves the session, selects the route with `router` and
//!   plans what is to be done for the request;
//! - `lookup`, `static_file`, `upload_handler` and `replies` say what to
//!   answer once the plan was carried out, and `error_pages` where the
//!   custom page for an error is kept.
//!
//! Texts are modelled by their UTF-8 bytes throughout; `text`, `space`,
//! `number` and `utf8` hold the primitives on bytes. The modules
//! `chunked_laws`, `chunked_encoding` and `framer_laws` hold what is proved
//! of the codec and the framer beyond the contracts of their functions.

pub mod chunked;
pub mod chunked_encoding;
pub mod chunked_laws;
pub mod dispatch;
pub mod error_pages;
pub mod framer;
pub mod framer_laws;
pub mod lookup;
pub mod number;
pub mod pages;
pub mod reactor;
pub mod replies;
pub mod requests;
pub mod router;
pub mod server_config;
pub mod session_manager;
pub mod space;
pub mod static_file;
pub mod string_map;
pub mod table;
pub mod text;
pub mod upload_handler;
pub mod utf8;
