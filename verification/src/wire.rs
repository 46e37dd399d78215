//! What the transport's own libraries decide: how a URL and query parameters
//! merge, which header names and values can be sent, which bytes are text,
//! and what a JSON document parses to.
//!
//! Each function marked `external_body` here makes one call into `reqwest`
//! (its `Url` and header types), `serde_json` or std, and nothing is proved
//! about it: its contract is taken on trust. The spec functions without a
//! body name what those calls return.

use crate::mapping::pairs_of;
use crate::measure::{byte_len, pairs_byte_len, MAX_QUERY_BYTES};
use reqwest::header::{HeaderName, HeaderValue};
use reqwest::Url;
use serde_json::Value;
use vstd::prelude::*;

verus! {

/// A parsed JSON document. The library carries it and never looks inside.
#[verifier::external_type_specification]
#[verifier::external_body]
pub struct ExValue(serde_json::Value);

/// The serialized URL that results from parsing `url` as an absolute URL and
/// appending `params`, in their order, to its query string; `None` where
/// `url` does not parse. This is `Url::parse_with_params` followed by the
/// URL's serialization.
pub uninterp spec fn url_with_query(url: Seq<char>, params: Seq<(Seq<char>, Seq<char>)>) -> Option<
    Seq<char>,
>;

/// A character that may stand in a header name: an ASCII letter, a digit or
/// one of the marks ``! " # $ % & ' * + - . ^ _ ` | ~``.
pub open spec fn header_name_char(c: char) -> bool {
    ||| 'a' <= c <= 'z'
    ||| 'A' <= c <= 'Z'
    ||| '0' <= c <= '9'
    ||| c == '!'
    ||| c == '"'
    ||| c == '#'
    ||| c == '$'
    ||| c == '%'
    ||| c == '&'
    ||| c == '\''
    ||| c == '*'
    ||| c == '+'
    ||| c == '-'
    ||| c == '.'
    ||| c == '^'
    ||| c == '_'
    ||| c == '`'
    ||| c == '|'
    ||| c == '~'
}

/// Whether a text can be sent as a header name: it has between 1 and 65535
/// characters, each of them one that may stand in a header name.
pub open spec fn header_name_accepted(name: Seq<char>) -> bool {
    &&& 1 <= name.len() <= 65535
    &&& forall|i: int| 0 <= i < name.len() ==> header_name_char(#[trigger] name[i])
}

/// The JSON document that `serde_json` reads from the text; `None` where the
/// text is not one JSON document.
pub uninterp spec fn json_document(text: Seq<char>) -> Option<Value>;

/// A character that the transport lets stand in a header value: anything
/// but the ASCII control characters, of which only the tab may.
pub open spec fn transport_value_char(c: char) -> bool {
    (c as u32 >= 32 && c as u32 != 127) || c as u32 == 9
}

/// Whether the transport takes a text as a header value.
pub open spec fn transport_takes_value(value: Seq<char>) -> bool {
    forall|i: int| 0 <= i < value.len() ==> transport_value_char(#[trigger] value[i])
}

/// Whether a text can be sent as a header value: it is ASCII throughout and
/// the transport takes it. That leaves printable ASCII and the tab.
pub open spec fn header_value_accepted(value: Seq<char>) -> bool {
    vstd::utf8::is_ascii_chars(value) && transport_takes_value(value)
}

/// Calls `Url::parse_with_params` and serializes the URL it returns.
/// Trusted: the outcome is the one that `url_with_query` names. The size
/// limit keeps the call away from inputs on which the URL library's 32-bit
/// offsets overflow.
#[verifier::external_body]
pub(crate) fn merge_query(url: &str, params: &Vec<(String, String)>) -> (merged: Option<String>)
    requires
        byte_len(url@) + pairs_byte_len(pairs_of(params@)) <= MAX_QUERY_BYTES,
    ensures
        match merged {
            Some(text) => url_with_query(url@, pairs_of(params@)) == Some(text@),
            None => url_with_query(url@, pairs_of(params@)) is None,
        },
{
    match Url::parse_with_params(url, params) {
        Ok(parsed) => Some(String::from(parsed)),
        Err(_) => None,
    }
}

/// Asks `HeaderName::from_str` whether it accepts the name. Trusted: it
/// accepts a name of 1 to 65535 bytes whose every byte is an ASCII letter,
/// a digit or one of the marks of `header_name_char`, and no other.
#[verifier::external_body]
pub(crate) fn accepts_header_name(name: &str) -> (accepted: bool)
    ensures
        accepted == header_name_accepted(name@),
{
    name.parse::<HeaderName>().is_ok()
}

/// Asks `HeaderValue::from_str` whether it accepts the value. Trusted: it
/// rejects a text exactly when one of its bytes is an ASCII control
/// character other than tab; the bytes of a character beyond ASCII are
/// never such.
#[verifier::external_body]
pub(crate) fn transport_accepts_value(value: &str) -> (accepted: bool)
    ensures
        accepted == transport_takes_value(value@),
{
    value.parse::<HeaderValue>().is_ok()
}

/// Reads bytes as UTF-8 text by `String::from_utf8`. Trusted: it succeeds
/// exactly on well-formed UTF-8 and then gives the characters that the bytes
/// encode.
#[verifier::external_body]
pub(crate) fn utf8_text(bytes: Vec<u8>) -> (text: Option<String>)
    ensures
        match text {
            Some(read) => vstd::utf8::valid_utf8(bytes@) && read@ == vstd::utf8::decode_utf8(
                bytes@,
            ),
            None => !vstd::utf8::valid_utf8(bytes@),
        },
{
    match String::from_utf8(bytes) {
        Ok(read) => Some(read),
        Err(_) => None,
    }
}

/// Whether a text can be sent as a header value.
pub fn accepts_header_value(value: &str) -> (accepted: bool)
    ensures
        accepted == header_value_accepted(value@),
{
    value.is_ascii() && transport_accepts_value(value)
}

/// Parses a text as JSON by `serde_json::from_str`. Trusted: the outcome is
/// the one that `json_document` names.
#[verifier::external_body]
pub(crate) fn parse_json(text: &str) -> (parsed: Option<Value>)
    ensures
        parsed == json_document(text@),
{
    match serde_json::from_str::<Value>(text) {
        Ok(document) => Some(document),
        Err(_) => None,
    }
}

} // verus!
