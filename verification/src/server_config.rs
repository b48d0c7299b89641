//! The configuration of one server: where it listens, how large a body it
//! takes, its routes and its custom error pages. A configuration is loaded
//! once and only read afterwards.

use vstd::prelude::*;
use vstd::std_specs::hash::*;
use std::collections::HashMap;

verus! {

/// One server: its listeners, its limit on the size of a body, its routes
/// in the order in which they were configured, and the names of its custom
/// error pages by status code.
#[derive(Debug, PartialEq, Clone)]
pub struct ServerConfig {
    pub server_name: String,
    pub server_address: Vec<ServerAddress>,
    pub max_body_size: usize,
    pub router: Vec<RouterConfig>,
    pub error_msg: HashMap<u16, String>,
}

/// One route: the path prefix it serves, the methods it allows, its
/// document root, and what it may offer beyond plain files: an index file,
/// a directory listing, a script for paths with a given extension, or a
/// redirection.
#[derive(Debug, PartialEq, Clone)]
pub struct RouterConfig {
    pub path: String,
    pub methods: Vec<String>,
    pub root: String,
    pub index: Option<String>,
    pub cgi: Option<(String, String)>,
    pub directory_listing: Option<bool>,
    pub redirection: Option<RedirectionConfig>,
}

/// Where a route redirects to, and with which status.
#[derive(Debug, PartialEq, Clone)]
pub struct RedirectionConfig {
    pub target: String,
    pub status: Option<u16>,
}

/// An address to listen on.
#[derive(Debug, PartialEq, Clone)]
pub struct ServerAddress {
    pub ip: String,
    pub port: u16,
}

impl ServerConfig {
    /// The name of the custom error page that the server has configured
    /// for a status code, if it has one.
    pub fn custom_page(&self, code: u16) -> (r: Option<&String>)
        ensures
            match r {
                Some(name) => self.error_msg@.contains_key(code) && self.error_msg@[code] == *name,
                None => !self.error_msg@.contains_key(code),
            },
    {
        broadcast use group_hash_axioms;

        self.error_msg.get(&code)
    }
}

} // verus!
