//! HTTP status codes as the runtime and provider clients report them.
use vstd::prelude::*;

use crate::botid::{char_at_byte, char_index_at_byte, utf8_len};
use crate::text::{chars_of, concat, decimal, decimal_string, owned, string_from_range};

verus! {

/// What `http::StatusCode::canonical_reason` gives for `code`: the standard
/// reason phrase of a registered status code, `None` for any other code
/// (and for a number that is no valid status code at all).
pub uninterp spec fn canonical_reason(code: u16) -> Option<Seq<char>>;

/// The reason phrase of `code`, as `http::StatusCode` knows it.
#[verifier::external_body]
fn reason_phrase(code: u16) -> (r: Option<String>)
    ensures
        match r {
            Some(s) => canonical_reason(code) == Some(s@),
            None => canonical_reason(code) is None,
        },
{
    match reqwest::StatusCode::from_u16(code) {
        Ok(status) => match status.canonical_reason() {
            Some(text) => Some(text.to_string()),
            None => None,
        },
        Err(_) => None,
    }
}

/// The text that stands after the number when a status code is displayed.
pub open spec fn reason_or_unknown(code: u16) -> Seq<char> {
    match canonical_reason(code) {
        Some(r) => r,
        None => "<unknown status code>"@,
    }
}

/// A status code as `http::StatusCode` displays it, e.g. `404 Not Found`.
pub open spec fn status_text(code: u16) -> Seq<char> {
    decimal(code as nat) + " "@ + reason_or_unknown(code)
}

/// The status code denotes success (`StatusCode::is_success`).
pub open spec fn is_success_code(code: u16) -> bool {
    200 <= code < 300
}

/// Whether `code` is a success code (200–299).
pub fn is_success(code: u16) -> (r: bool)
    ensures
        r == is_success_code(code),
{
    200 <= code && code < 300
}

/// `code` as `http::StatusCode` displays it.
pub fn status_display(code: u16) -> (r: String)
    ensures
        r@ == status_text(code),
{
    let number = decimal_string(code as u64);
    let with_space = concat(number.as_str(), " ");
    let reason = match reason_phrase(code) {
        Some(s) => s,
        None => owned("<unknown status code>"),
    };
    concat(with_space.as_str(), reason.as_str())
}


/// The error a media request reports for a reply that is not a success:
/// `API error <status>: <detail>`.
pub fn api_error_text(code: u16, detail: &str) -> (r: String)
    ensures
        r@ == "API error "@ + status_text(code) + ": "@ + detail@,
{
    let status = status_display(code);
    let a = concat("API error ", status.as_str());
    let b = concat(a.as_str(), ": ");
    concat(b.as_str(), detail)
}

/// Cutting `s` after `n` bytes keeps whole characters: `s` is no longer than
/// `n` bytes, or byte `n` starts a character.
pub open spec fn byte_cut_ok(s: Seq<char>, n: nat) -> bool {
    utf8_len(s) <= n || char_at_byte(s, n) is Some
}

/// The characters that fill the first `n` bytes of `s`; all of `s` when it
/// is shorter (where `byte_cut_ok` holds, no boundary at `n` means that).
pub open spec fn byte_prefix_spec(s: Seq<char>, n: nat) -> Seq<char> {
    match char_at_byte(s, n) {
        Some(k) => s.take(k as int),
        None => s,
    }
}

/// At most the first `n` bytes of `s` (`&s[..s.len().min(n)]`).
pub fn byte_prefix(s: &str, n: usize) -> (r: String)
    requires
        byte_cut_ok(s@, n as nat),
    ensures
        r@ == byte_prefix_spec(s@, n as nat),
{
    let v = chars_of(s);
    match char_index_at_byte(&v, n) {
        Some(k) => {
            proof {
                crate::botid::lemma_char_at_byte_some(v@, n as nat);
            }
            let r = string_from_range(&v, 0, k);
            assert(v@.subrange(0, k as int) =~= v@.take(k as int));
            r
        },
        None => owned(s),
    }
}

} // verus!
