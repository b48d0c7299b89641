//! Sessions: the store of live sessions, the lookup of a session by the
//! id that a `Cookie` header carries, and the creation of a session under
//! a fresh random id.

use vstd::prelude::*;
use vstd::slice::*;
use vstd::string::*;
use vstd::utf8::{
    encode_utf8_valid_utf8, partial_valid_utf8, partial_valid_utf8_extend_ascii_block, valid_utf8,
};
use rand::RngCore;
use crate::space::{trim, trim_bounds};
use crate::string_map::{Entry, StringMap};
use crate::text::{bytes_eq, find, find_from, lemma_find_some, lit, starts_with, text_bytes};
use crate::utf8::{
    char_start, lemma_char_start_after_ascii, string_bytes, string_from_utf8, text_piece,
};

verus! {

/// Number of characters of a session id.
pub const SESSION_ID_LENGTH: usize = 32;

/// A session: its id and its data.
#[derive(Debug, Clone)]
pub struct Session {
    pub id: String,
    pub data: StringMap,
}

/// A session, with its id as UTF-8 bytes.
pub ghost struct SessionView {
    pub id: Seq<u8>,
    pub data: Seq<Entry>,
}

impl View for Session {
    type V = SessionView;

    open spec fn view(&self) -> SessionView {
        SessionView { id: text_bytes(self.id@), data: self.data@ }
    }
}

/// The store of live sessions.
#[derive(Debug, Clone)]
pub struct SessionManager {
    sessions: Vec<Session>,
}

impl View for SessionManager {
    type V = Seq<SessionView>;

    closed spec fn view(&self) -> Seq<SessionView> {
        Seq::new(self.sessions@.len(), |i: int| self.sessions@[i]@)
    }
}

/// `b` is an ASCII letter or digit.
pub open spec fn is_alphanumeric(b: u8) -> bool {
    (0x30 <= b <= 0x39) || (0x41 <= b <= 0x5a) || (0x61 <= b <= 0x7a)
}

/// `id` has the shape of a generated session id: 32 ASCII letters and
/// digits.
pub open spec fn is_session_id(id: Seq<u8>) -> bool {
    id.len() == SESSION_ID_LENGTH && forall|i: int|
        0 <= i < id.len() ==> is_alphanumeric(#[trigger] id[i])
}

/// The name of the session cookie with its equals sign, as bytes.
pub open spec fn cookie_key() -> Seq<u8> {
    lit("session_id=")
}

/// The semicolon, as bytes.
pub open spec fn semicolon() -> Seq<u8> {
    lit(";")
}

/// The literal texts of the cookie reader, byte by byte as far as the
/// proofs need them.
pub proof fn lemma_cookie_literals()
    ensures
        semicolon() == seq![59u8],
        cookie_key().len() == 11,
        cookie_key()[10] == 61u8,
{
    reveal_strlit(";");
    let s = ";";
    assert(s@.len() == 1);
    assert(is_ascii(s));
    is_ascii_spec_bytes(s);
    assert(s.spec_bytes() =~= seq![59u8]);
    reveal_strlit("session_id=");
    let k = "session_id=";
    assert(k@.len() == 11);
    assert(is_ascii(k));
    is_ascii_spec_bytes(k);
    assert(k@[10] == '=');
}

/// `s` without every repetition of `prefix` at its front.
pub open spec fn strip_all(s: Seq<u8>, prefix: Seq<u8>) -> Seq<u8>
    decreases s.len(),
{
    if prefix.len() > 0 && prefix.is_prefix_of(s) {
        strip_all(s.skip(prefix.len() as int), prefix)
    } else {
        s
    }
}

/// The session id that the cookies of `header` from offset `pos` on carry.
/// Cookies are separated by semicolons and trimmed of white space; the
/// first one that begins `session_id=` gives the id, which is what follows
/// that prefix and every repetition of it.
pub open spec fn cookie_id_from(header: Seq<u8>, pos: int) -> Option<Seq<u8>>
    decreases header.len() - pos,
{
    if pos < 0 || pos > header.len() {
        None
    } else {
        match find_from(header, semicolon(), pos) {
            Some(e) => {
                proof {
                    lemma_cookie_literals();
                    lemma_find_some(header, semicolon(), pos);
                }
                let cookie = trim(header.subrange(pos, e));
                if cookie_key().is_prefix_of(cookie) {
                    Some(strip_all(cookie, cookie_key()))
                } else {
                    cookie_id_from(header, e + 1)
                }
            },
            None => {
                let cookie = trim(header.skip(pos));
                if cookie_key().is_prefix_of(cookie) {
                    Some(strip_all(cookie, cookie_key()))
                } else {
                    None
                }
            },
        }
    }
}

/// The session id that a `Cookie` header carries.
pub open spec fn cookie_session_id(header: Seq<u8>) -> Option<Seq<u8>> {
    cookie_id_from(header, 0)
}

/// Index of the first session at or after `i` whose id is `id`.
pub open spec fn session_index_from(store: Seq<SessionView>, id: Seq<u8>, i: int) -> Option<int>
    decreases store.len() - i,
{
    if i < 0 || i >= store.len() {
        None
    } else if store[i].id == id {
        Some(i)
    } else {
        session_index_from(store, id, i + 1)
    }
}

/// Index of the session whose id is `id`.
pub open spec fn session_index(store: Seq<SessionView>, id: Seq<u8>) -> Option<int> {
    session_index_from(store, id, 0)
}

/// Index of the session that a request with the given `Cookie` header, if
/// any, belongs to: the one whose id the header carries.
pub open spec fn known_session(store: Seq<SessionView>, cookie: Option<Seq<u8>>) -> Option<int> {
    match cookie {
        Some(header) => match cookie_session_id(header) {
            Some(id) => session_index(store, id),
            None => None,
        },
        None => None,
    }
}

/// The store after `session` was put into it: in place of the session
/// that had its id, or at the end.
pub open spec fn store_put(store: Seq<SessionView>, session: SessionView) -> Seq<SessionView> {
    match session_index(store, session.id) {
        Some(i) => store.update(i, session),
        None => store.push(session),
    }
}

/// The `Cookie` header of a request, as bytes.
pub open spec fn cookie_bytes(cookie_header: Option<&str>) -> Option<Seq<u8>> {
    match cookie_header {
        Some(header) => Some(text_bytes(header@)),
        None => None,
    }
}

/// `RngCore::try_fill_bytes` of the rand crate on `OsRng`, the random
/// source of the operating system. This is believed of it, not proved: it
/// fills the bytes it is given and keeps their number, or reports that the
/// source failed, and does not panic. Which bytes come is left open, and
/// two calls may give different bytes. The number of bytes is kept small
/// so that making room for them cannot fail for want of address space.
#[verifier::external_body]
fn random_bytes(count: usize) -> (r: Option<Vec<u8>>)
    requires
        count <= 4096,
    ensures
        r matches Some(bytes) ==> bytes@.len() == count,
{
    let mut bytes = vec![0u8; count];
    match rand::rngs::OsRng.try_fill_bytes(&mut bytes) {
        Ok(()) => Some(bytes),
        Err(_) => None,
    }
}

/// The letter or digit with the given number: `A` to `Z` for 0 to 25, `a`
/// to `z` for 26 to 51, and `0` to `9` for 52 to 61.
pub open spec fn letter_or_digit(number: u8) -> u8
    recommends
        number < 62,
{
    if number < 26 {
        (0x41 + number) as u8
    } else if number < 52 {
        (0x61 + number - 26) as u8
    } else {
        (0x30 + number - 52) as u8
    }
}

/// The letter or digit with the given number.
fn alphanumeric(number: u8) -> (b: u8)
    requires
        number < 62,
    ensures
        b == letter_or_digit(number),
        is_alphanumeric(b),
{
    if number < 26 {
        0x41 + number
    } else if number < 52 {
        0x61 + (number - 26)
    } else {
        0x30 + (number - 52)
    }
}

/// The letters and digits that random bytes give, in their order. The
/// upper six bits of a byte are a number below 64; a number below 62 gives
/// the letter or digit with that number, and a byte with a larger number
/// gives nothing. So each of the 62 comes from four of the 256 bytes.
pub open spec fn letters_of(drawn: Seq<u8>) -> Seq<u8>
    decreases drawn.len(),
{
    if drawn.len() == 0 {
        Seq::empty()
    } else if drawn.last() / 4 < 62 {
        letters_of(drawn.drop_last()).push(letter_or_digit(drawn.last() / 4))
    } else {
        letters_of(drawn.drop_last())
    }
}

/// Turns random bytes into letters and digits.
pub fn letters_in(drawn: &[u8]) -> (r: Vec<u8>)
    ensures
        r@ == letters_of(drawn@),
        forall|i: int| 0 <= i < r@.len() ==> is_alphanumeric(#[trigger] r@[i]),
{
    let mut out: Vec<u8> = Vec::new();
    let mut k: usize = 0;
    assert(drawn@.take(0) =~= Seq::<u8>::empty());
    while k < drawn.len()
        invariant
            k <= drawn.len(),
            out@ == letters_of(drawn@.take(k as int)),
            forall|i: int| 0 <= i < out@.len() ==> is_alphanumeric(#[trigger] out@[i]),
        decreases drawn.len() - k,
    {
        proof {
            let next = drawn@.take(k + 1);
            assert(next.drop_last() =~= drawn@.take(k as int));
            assert(next.last() == drawn@[k as int]);
        }
        let number: u8 = drawn[k] / 4;
        if number < 62 {
            out.push(alphanumeric(number));
        }
        k += 1;
    }
    assert(drawn@.take(drawn.len() as int) =~= drawn@);
    out
}

/// Number of random bytes that are drawn for one session id.
pub const RANDOM_BATCH: usize = 1024;

/// The session id that a run of letters and digits gives: its first 32, or
/// none when there are fewer.
pub open spec fn id_from(letters: Seq<u8>) -> Option<Seq<u8>> {
    if letters.len() >= SESSION_ID_LENGTH {
        Some(letters.take(SESSION_ID_LENGTH as int))
    } else {
        None
    }
}

/// Makes a session id out of random bytes: the first 32 letters and
/// digits that the bytes give. `None` exactly when the bytes give fewer
/// than 32.
pub fn session_id_from(drawn: &[u8]) -> (r: Option<String>)
    ensures
        match id_from(letters_of(drawn@)) {
            Some(id) => r is Some && text_bytes(r->0@) == id && is_session_id(id),
            None => r is None,
        },
{
    let letters = letters_in(drawn);
    if letters.len() < SESSION_ID_LENGTH {
        return None;
    }
    let mut bytes: Vec<u8> = Vec::new();
    let mut k: usize = 0;
    while k < SESSION_ID_LENGTH
        invariant
            k <= SESSION_ID_LENGTH <= letters.len(),
            bytes@ == letters@.take(k as int),
        decreases SESSION_ID_LENGTH - k,
    {
        bytes.push(letters[k]);
        assert(bytes@ =~= letters@.take(k + 1));
        k += 1;
    }
    proof {
        assert forall|i: int| 0 <= i < bytes@.len() implies is_alphanumeric(#[trigger] bytes@[i]) by {
            assert(bytes@[i] == letters@[i]);
        }
        assert(bytes@.subrange(0, 0) =~= Seq::<u8>::empty());
        assert(partial_valid_utf8(bytes@, 0));
        partial_valid_utf8_extend_ascii_block(bytes@, 0, bytes.len() as int);
        assert(bytes@.subrange(0, bytes.len() as int) =~= bytes@);
    }
    string_from_utf8(bytes)
}

/// Strips every repetition of the cookie key from the front of the text
/// between `start` and `end`, and returns where the rest starts.
fn skip_cookie_keys(s: &[u8], start: usize, end: usize) -> (r: usize)
    requires
        start <= end <= s.len(),
        cookie_key().is_prefix_of(s@.subrange(start as int, end as int)),
    ensures
        start < r <= end,
        s[r - 1] == 61u8,
        s@.subrange(r as int, end as int) == strip_all(
            s@.subrange(start as int, end as int),
            cookie_key(),
        ),
{
    let key = "session_id=".as_bytes();
    proof {
        lemma_cookie_literals();
    }
    let mut at: usize = start;
    loop
        invariant
            start <= at <= end <= s.len(),
            key@ == cookie_key(),
            cookie_key().len() == 11,
            cookie_key()[10] == 61u8,
            at > start ==> s[at - 1] == 61u8,
            at == start ==> cookie_key().is_prefix_of(s@.subrange(start as int, end as int)),
            strip_all(s@.subrange(start as int, end as int), cookie_key()) == strip_all(
                s@.subrange(at as int, end as int),
                cookie_key(),
            ),
        decreases end - at,
    {
        let rest = slice_subrange(s, at, end);
        if !starts_with(rest, key) {
            return at;
        }
        proof {
            assert(rest@.skip(11) =~= s@.subrange(at + 11, end as int));
            assert(rest@.subrange(0, 11)[10] == 61u8);
        }
        at = at + 11;
    }
}

impl Session {
    /// A copy of the session.
    pub fn duplicate(&self) -> (r: Session)
        ensures
            r@ == self@,
    {
        Session { id: self.id.clone(), data: self.data.duplicate() }
    }
}

impl SessionManager {
    /// Extracts the session id from a `Cookie` header: the value of the first
    /// cookie named `session_id`.
    pub fn extract_session_id(cookie_header: &str) -> (r: Option<String>)
        ensures
            match r {
                Some(id) => cookie_session_id(text_bytes(cookie_header@)) == Some(text_bytes(id@)),
                None => cookie_session_id(text_bytes(cookie_header@)) is None,
            },
    {
        let header = cookie_header.as_bytes();
        let n: usize = header.len();
        proof {
            encode_utf8_valid_utf8(cookie_header@);
            lemma_cookie_literals();
        }
        let mut pos: usize = 0;
        loop
            invariant
                pos <= n,
                n == header.len(),
                valid_utf8(header@),
                header@ == text_bytes(cookie_header@),
                pos > 0 ==> header[pos - 1] == 59u8,
                cookie_session_id(header@) == cookie_id_from(header@, pos as int),
            decreases n - pos,
        {
            let found = find(header, ";".as_bytes(), pos);
            let e: usize = match found {
                Some(e) => e,
                None => n,
            };
            proof {
                lemma_cookie_literals();
                if found is Some {
                    lemma_find_some(header@, semicolon(), pos as int);
                    assert(header@.subrange(e as int, e + 1)[0] == 59u8);
                }
            }
            let segment = slice_subrange(header, pos, e);
            assert(found is None ==> segment@ =~= header@.skip(pos as int));
            let (a, b) = trim_bounds(segment);
            let cookie = slice_subrange(segment, a, b);
            if starts_with(cookie, "session_id=".as_bytes()) {
                let from: usize = skip_cookie_keys(segment, a, b);
                proof {
                    assert(header@[pos + from - 1] == 61u8);
                    lemma_char_start_after_ascii(header@, pos + from - 1);
                    if b < segment.len() {
                        assert(header@[pos + b] == segment@[b as int]);
                    }
                    assert(char_start(header@, pos + b));
                    assert(header@.subrange(pos + from, pos + b) =~= segment@.subrange(
                        from as int,
                        b as int,
                    ));
                }
                return Some(text_piece(header, pos + from, pos + b));
            }
            if found.is_none() {
                return None;
            }
            pos = e + 1;
        }
    }

    /// Generates a session id: 32 random ASCII letters and digits.
    ///
    /// Random bytes are drawn from the operating system once, and
    /// `session_id_from` makes the id out of them. `None` when the random
    /// source fails, or when the bytes that were drawn give fewer than 32
    /// letters and digits.
    pub fn generate_session_id() -> (r: Option<String>)
        ensures
            r matches Some(id) ==> is_session_id(text_bytes(id@)),
    {
        match random_bytes(RANDOM_BATCH) {
            Some(drawn) => session_id_from(drawn.as_slice()),
            None => None,
        }
    }

    /// A store without sessions.
    pub fn new() -> (r: SessionManager)
        ensures
            r@ == Seq::<SessionView>::empty(),
    {
        let r = SessionManager { sessions: Vec::new() };
        assert(r@ =~= Seq::<SessionView>::empty());
        r
    }

    /// Number of sessions in the store.
    pub fn len(&self) -> (n: usize)
        ensures
            n == self@.len(),
    {
        self.sessions.len()
    }

    /// Index of the session whose id is `id`.
    fn position(&self, id: &[u8]) -> (r: Option<usize>)
        ensures
            match r {
                Some(i) => session_index(self@, id@) == Some(i as int) && i < self@.len(),
                None => session_index(self@, id@) is None,
            },
    {
        let mut i: usize = 0;
        while i < self.sessions.len()
            invariant
                i <= self.sessions@.len(),
                session_index(self@, id@) == session_index_from(self@, id@, i as int),
            decreases self.sessions@.len() - i,
        {
            if bytes_eq(string_bytes(&self.sessions[i].id), id) {
                return Some(i);
            }
            i += 1;
        }
        None
    }

    /// The session that a request with the given `Cookie` header belongs
    /// to: the stored session whose id the header carries, if there is
    /// one.
    pub fn find_session(&self, cookie_header: Option<&str>) -> (r: Option<Session>)
        ensures
            match known_session(self@, cookie_bytes(cookie_header)) {
                Some(i) => r is Some && r->0@ == self@[i],
                None => r is None,
            },
    {
        let header = match cookie_header {
            Some(header) => header,
            None => {
                return None;
            },
        };
        let id = match Self::extract_session_id(header) {
            Some(id) => id,
            None => {
                return None;
            },
        };
        match self.position(string_bytes(&id)) {
            Some(i) => Some(self.sessions[i].duplicate()),
            None => None,
        }
    }

    /// Puts a session without data into the store under `id`, in place of
    /// a session that had that id, and returns it.
    pub fn add_session(&mut self, id: String) -> (r: Session)
        ensures
            r@ == (SessionView { id: text_bytes(id@), data: Seq::empty() }),
            final(self)@ == store_put(old(self)@, r@),
    {
        let ghost before = self@;
        let stored = Session { id: id.clone(), data: StringMap::new() };
        let session = Session { id, data: StringMap::new() };
        match self.position(string_bytes(&session.id)) {
            Some(i) => {
                self.sessions[i] = stored;
                assert(self@ =~= before.update(i as int, session@));
            },
            None => {
                self.sessions.push(stored);
                assert(self@ =~= before.push(session@));
            },
        }
        session
    }

    /// Returns the session of a request: the stored session whose id the
    /// `Cookie` header carries, or else a new session under a fresh random
    /// id, which is put into the store. The store changes in the second
    /// case only. A stored session is always returned; `None` comes only
    /// when a new session is needed and no id could be generated, and the
    /// store is then left as it was.
    pub fn get_or_create_session(&mut self, cookie_header: Option<&str>) -> (r: Option<Session>)
        ensures
            match known_session(old(self)@, cookie_bytes(cookie_header)) {
                Some(i) => r is Some && r->0@ == old(self)@[i] && final(self)@ == old(self)@,
                None => match r {
                    Some(session) => is_session_id(session@.id) && session@.data == Seq::<
                        Entry,
                    >::empty() && final(self)@ == store_put(old(self)@, session@),
                    None => final(self)@ == old(self)@,
                },
            },
    {
        match self.find_session(cookie_header) {
            Some(session) => Some(session),
            None => match Self::generate_session_id() {
                Some(id) => Some(self.add_session(id)),
                None => None,
            },
        }
    }
}

} // verus!
