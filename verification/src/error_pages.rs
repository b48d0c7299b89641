//! Custom error pages: where the page that a server has configured for a
//! status code is kept.

use vstd::prelude::*;
use vstd::string::*;
use crate::server_config::ServerConfig;
use crate::text::{lit, text_bytes};
use crate::utf8::{joined_text, lemma_text_is_valid, string_bytes};

verus! {

/// The lower-case form of a text, as `str::to_lowercase` of the standard
/// library gives it.
pub uninterp spec fn lowercase_of(text: Seq<char>) -> Seq<char>;

/// `str::to_lowercase` of the standard library. This is believed of it, not
/// proved: its result depends on the text alone.
#[verifier::external_body]
fn to_lowercase(text: &str) -> (r: String)
    ensures
        r@ == lowercase_of(text@),
{
    text.to_lowercase()
}

/// A text with an underscore in place of every space.
pub open spec fn with_underscores(text: Seq<char>) -> Seq<char> {
    Seq::new(
        text.len(),
        |i: int|
            if text[i] == ' ' {
                '_'
            } else {
                text[i]
            },
    )
}

/// Puts an underscore in place of every space of a text.
pub fn underscored(text: &str) -> (r: String)
    ensures
        r@ == with_underscores(text@),
{
    let n: usize = text.unicode_len();
    let mut out = String::new();
    let mut i: usize = 0;
    assert(with_underscores(text@.take(0)) =~= Seq::<char>::empty());
    while i < n
        invariant
            i <= n,
            n == text@.len(),
            out@ == with_underscores(text@.take(i as int)),
        decreases n - i,
    {
        let c: char = text.get_char(i);
        if c == ' ' {
            proof {
                reveal_strlit("_");
            }
            out.append("_");
            assert("_"@ =~= seq!['_']);
        } else {
            out.append(text.substring_char(i, i + 1));
        }
        assert(out@ =~= with_underscores(text@.take(i + 1)));
        i += 1;
    }
    assert(text@.take(n as int) =~= text@);
    out
}

/// The path of the page with the given name, which is in lower case
/// already: the file `<name>.html` in the directory `html`.
pub open spec fn page_path(name: Seq<u8>) -> Seq<u8> {
    lit("html/") + name + lit(".html")
}

/// The path of the page with the given name, which is in lower case
/// already.
pub fn page_path_from(name: &str) -> (r: String)
    ensures
        text_bytes(r@) == page_path(text_bytes(name@)),
{
    proof {
        lemma_text_is_valid("html/"@);
        lemma_text_is_valid(name@);
        lemma_text_is_valid(".html"@);
    }
    joined_text("html/".as_bytes(), name.as_bytes(), ".html".as_bytes())
}

/// The path of the custom error page with the given name: the name with
/// underscores for its spaces and in lower case, as a file `.html` in the
/// directory `html`.
pub fn error_page_path(page_name: &str) -> (r: String)
    ensures
        text_bytes(r@) == page_path(text_bytes(lowercase_of(with_underscores(page_name@)))),
{
    let plain = underscored(page_name);
    let lowered = to_lowercase(plain.as_str());
    page_path_from(lowered.as_str())
}

/// The path of the custom error page that the server has configured for a
/// status code, if it has one.
pub fn custom_page_path(config: &ServerConfig, code: u16) -> (r: Option<String>)
    ensures
        match r {
            Some(path) => config.error_msg@.contains_key(code) && text_bytes(path@) == page_path(
                text_bytes(lowercase_of(with_underscores(config.error_msg@[code]@))),
            ),
            None => !config.error_msg@.contains_key(code),
        },
{
    match config.custom_page(code) {
        Some(name) => Some(error_page_path(name.as_str())),
        None => None,
    }
}

} // verus!
