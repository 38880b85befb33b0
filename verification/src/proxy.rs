//! What the proxy decides about an upstream call: which headers travel, the
//! target URL, the injected credential, and the JSON error bodies.

use crate::text::{digit, push_char, str_eq, trim_end_char, trim_end_matches_char};
use crate::vault::{unsealed_text, Vault};
use vstd::prelude::*;

verus! {

/// HTTP 400.
pub const STATUS_BAD_REQUEST: u16 = 400;

/// HTTP 404.
pub const STATUS_NOT_FOUND: u16 = 404;

/// HTTP 429.
pub const STATUS_TOO_MANY_REQUESTS: u16 = 429;

/// HTTP 500.
pub const STATUS_INTERNAL_SERVER_ERROR: u16 = 500;

/// HTTP 503.
pub const STATUS_SERVICE_UNAVAILABLE: u16 = 503;

/// The text in front of the JSON-quoted message of an error body.
pub const ERROR_BODY_PREFIX: &'static str = "{\"error\":";

/// The message when a credential is configured but no vault exists.
pub const VAULT_MISSING: &'static str = "vault not initialized";

/// The message when a configured credential cannot be unsealed.
pub const CREDENTIAL_UNREADABLE: &'static str = "credential decryption failed";

/// The text in front of the error of an upstream that cannot be reached.
pub const UPSTREAM_UNAVAILABLE: &'static str = "upstream unavailable: ";

/// A response the gateway makes itself: a status and the message of its JSON
/// error body.
#[derive(Debug, Clone, PartialEq, Eq)]
pub struct ErrorReply {
    pub status: u16,
    pub message: String,
}

/// A lower-case hexadecimal digit for `d < 16`.
pub open spec fn hex_digit(d: nat) -> char {
    if d < 10 {
        digit(d)
    } else {
        ((87 + d) as u32) as char
    }
}

/// How `serde_json` writes one character inside a JSON string: `"` and `\`
/// behind a backslash; backspace, tab, line feed, form feed and carriage
/// return as `\b \t \n \f \r`; other control characters below U+0020 as
/// `\u00xx` with lower-case hex digits; everything else as it is.
pub open spec fn json_escaped_char(c: char) -> Seq<char> {
    let u = c as u32;
    if c == '"' {
        seq!['\\', '"']
    } else if c == '\\' {
        seq!['\\', '\\']
    } else if u == 0x08 {
        seq!['\\', 'b']
    } else if u == 0x09 {
        seq!['\\', 't']
    } else if u == 0x0a {
        seq!['\\', 'n']
    } else if u == 0x0c {
        seq!['\\', 'f']
    } else if u == 0x0d {
        seq!['\\', 'r']
    } else if u < 0x20 {
        seq!['\\', 'u', '0', '0', hex_digit((u / 16) as nat), hex_digit((u % 16) as nat)]
    } else {
        seq![c]
    }
}

/// The characters of `text` as `serde_json` writes them inside a string.
pub open spec fn json_escaped(text: Seq<char>) -> Seq<char>
    decreases text.len(),
{
    if text.len() == 0 {
        Seq::empty()
    } else {
        json_escaped(text.drop_last()) + json_escaped_char(text.last())
    }
}

/// The JSON string literal of `text`, as `serde_json::to_string` writes it.
pub open spec fn json_string_literal(text: Seq<char>) -> Seq<char> {
    seq!['"'] + json_escaped(text) + seq!['"']
}

/// `serde_json::to_string` on a `str`. Claims that it succeeds (serializing a
/// string into the `Vec` writer that `to_string` uses has no error path) and
/// that the result is the string literal with `serde_json`'s escapes.
#[verifier::external_body]
fn json_quote(text: &str) -> (r: Option<String>)
    ensures
        r is Some,
        r matches Some(q) ==> q@ == json_string_literal(text@),
{
    serde_json::to_string(text).ok()
}

/// A character that `serde_json` writes as it is.
pub open spec fn json_plain_char(c: char) -> bool {
    c != '"' && c != '\\' && c as u32 >= 0x20
}

/// A message made of plain characters is written unchanged between quotes.
pub proof fn lemma_plain_text_is_unescaped(text: Seq<char>)
    requires
        forall|i: int| 0 <= i < text.len() ==> json_plain_char(#[trigger] text[i]),
    ensures
        json_escaped(text) == text,
    decreases text.len(),
{
    if text.len() > 0 {
        let init = text.drop_last();
        assert forall|i: int| 0 <= i < init.len() implies json_plain_char(#[trigger] init[i]) by {
            assert(init[i] == text[i]);
        }
        lemma_plain_text_is_unescaped(init);
        assert(json_plain_char(text[text.len() - 1]));
        assert(init.push(text.last()) == text);
    }
}

/// Header names that are never forwarded in either direction.
pub open spec fn is_hop_by_hop_name(name: Seq<char>) -> bool {
    ||| name == "connection"@
    ||| name == "keep-alive"@
    ||| name == "transfer-encoding"@
    ||| name == "te"@
    ||| name == "upgrade"@
    ||| name == "proxy-authorization"@
    ||| name == "proxy-authenticate"@
}

/// The hop-by-hop header names of RFC 7230.
pub open spec fn hop_by_hop_names() -> Seq<Seq<char>> {
    seq![
        "connection"@,
        "keep-alive"@,
        "transfer-encoding"@,
        "te"@,
        "upgrade"@,
        "proxy-authorization"@,
        "proxy-authenticate"@,
    ]
}

/// Exactly the seven hop-by-hop names are withheld; every other header name
/// is forwarded.
pub proof fn lemma_only_hop_by_hop_names_withheld(name: Seq<char>)
    ensures
        is_hop_by_hop_name(name) <==> hop_by_hop_names().contains(name),
        !hop_by_hop_names().contains(name) ==> !is_hop_by_hop_name(name),
{
    let names = hop_by_hop_names();
    if is_hop_by_hop_name(name) {
        if name == "connection"@ {
            assert(names[0] == name);
        } else if name == "keep-alive"@ {
            assert(names[1] == name);
        } else if name == "transfer-encoding"@ {
            assert(names[2] == name);
        } else if name == "te"@ {
            assert(names[3] == name);
        } else if name == "upgrade"@ {
            assert(names[4] == name);
        } else if name == "proxy-authorization"@ {
            assert(names[5] == name);
        } else {
            assert(names[6] == name);
        }
    }
    if names.contains(name) {
        let k = choose|k: int| 0 <= k < names.len() && names[k] == name;
        assert(0 <= k < 7);
    }
}

/// Whether a (lower-case) header name is hop-by-hop, so not forwarded.
pub fn is_hop_by_hop(name: &str) -> (r: bool)
    ensures
        r == is_hop_by_hop_name(name@),
{
    str_eq(name, "connection") || str_eq(name, "keep-alive") || str_eq(name, "transfer-encoding")
        || str_eq(name, "te") || str_eq(name, "upgrade") || str_eq(name, "proxy-authorization")
        || str_eq(name, "proxy-authenticate")
}

/// The body of an error response: `{"error":<message as a JSON string>}`.
pub open spec fn error_body(message: Seq<char>) -> Seq<char> {
    ERROR_BODY_PREFIX@ + json_string_literal(message) + seq!['}']
}

/// The JSON body of an error response carrying `message`.
pub fn json_error_body(message: &str) -> (r: String)
    ensures
        r@ == error_body(message@),
{
    let mut body = ERROR_BODY_PREFIX.to_owned();
    match json_quote(message) {
        Some(quoted) => body.append(quoted.as_str()),
        None => {
            push_char(&mut body, '"');
            body.append(message);
            push_char(&mut body, '"');
        },
    }
    push_char(&mut body, '}');
    body
}

/// The query part of a URL as forwarded: `?` and the query, or nothing.
pub open spec fn query_suffix(query: Option<Seq<char>>) -> Seq<char> {
    match query {
        Some(q) => seq!['?'] + q,
        None => Seq::empty(),
    }
}

/// The upstream URL: the server's base URL without trailing slashes, the
/// path, and the query when there is one.
pub open spec fn target_url_of(base: Seq<char>, path: Seq<char>, query: Option<Seq<char>>) -> Seq<char> {
    trim_end_char(base, '/') + path + query_suffix(query)
}

/// Builds the upstream URL.
pub fn target_url(base: &str, path: &str, query: Option<&str>) -> (r: String)
    ensures
        r@ == target_url_of(
            base@,
            path@,
            match query {
                Some(q) => Some(q@),
                None => None,
            },
        ),
{
    let mut url = trim_end_matches_char(base, '/');
    url.append(path);
    match query {
        Some(q) => {
            push_char(&mut url, '?');
            url.append(q);
        },
        None => {},
    }
    url
}

/// The message of a failed upstream connection: `upstream unavailable: {error}`.
pub fn upstream_failure(error: &str) -> (r: String)
    ensures
        r@ == UPSTREAM_UNAVAILABLE@ + error@,
{
    let mut message = UPSTREAM_UNAVAILABLE.to_owned();
    message.append(error);
    message
}

/// The header to inject upstream for a server's sealed credential: `None` when
/// the server has none; a 500 reply when there is no vault or the credential
/// does not unseal; else the header name and the unsealed key.
pub fn upstream_credential(auth: Option<(&str, &str)>, vault: Option<&Vault>) -> (r: Result<
    Option<(String, String)>,
    ErrorReply,
>)
    ensures
        match auth {
            None => r matches Ok(None),
            Some((header, sealed)) => match vault {
                None => r matches Err(e) && e.status == STATUS_INTERNAL_SERVER_ERROR && e.message@
                    == VAULT_MISSING@,
                Some(v) => match unsealed_text(v.key(), sealed@) {
                    Ok(key) => r matches Ok(Some((h, k))) && h@ == header@ && k@ == key,
                    Err(_) => r matches Err(e) && e.status == STATUS_INTERNAL_SERVER_ERROR
                        && e.message@ == CREDENTIAL_UNREADABLE@,
                },
            },
        },
{
    match auth {
        None => Ok(None),
        Some((header, sealed)) => match vault {
            None => Err(ErrorReply { status: STATUS_INTERNAL_SERVER_ERROR, message: VAULT_MISSING.to_owned() }),
            Some(v) => match v.decrypt(sealed) {
                Ok(key) => Ok(Some((header.to_owned(), key))),
                Err(_) => Err(
                    ErrorReply {
                        status: STATUS_INTERNAL_SERVER_ERROR,
                        message: CREDENTIAL_UNREADABLE.to_owned(),
                    },
                ),
            },
        },
    }
}

} // verus!
