//! HTTP status reason phrases.
//!
//! The lookup of a missing description under `patch` has the response object for
//! its key rather than a status code, so it always misses and yields an empty
//! string. The table itself is exposed through [`reason_phrase`].

use vstd::prelude::*;

use crate::json::Text;

verus! {

/// Custom reason phrases layered under the standard ones.
pub const CUSTOM: [(&'static str, &'static str); 7] = [
    ("default", "Default response"),
    ("1XX", "Informational"),
    ("2XX", "Successful"),
    ("3XX", "Redirection"),
    ("4XX", "Client Error"),
    ("5XX", "Server Error"),
    ("7XX", "Developer Error"),
];

/// Standard IANA reason phrases.
pub const STANDARD: [(&'static str, &'static str); 33] = [
    ("100", "Continue"),
    ("101", "Switching Protocols"),
    ("102", "Processing"),
    ("103", "Early Hints"),
    ("200", "OK"),
    ("201", "Created"),
    ("202", "Accepted"),
    ("203", "Non-Authoritative Information"),
    ("204", "No Content"),
    ("205", "Reset Content"),
    ("206", "Partial Content"),
    ("300", "Multiple Choices"),
    ("301", "Moved Permanently"),
    ("302", "Found"),
    ("303", "See Other"),
    ("304", "Not Modified"),
    ("307", "Temporary Redirect"),
    ("308", "Permanent Redirect"),
    ("400", "Bad Request"),
    ("401", "Unauthorized"),
    ("403", "Forbidden"),
    ("404", "Not Found"),
    ("405", "Method Not Allowed"),
    ("409", "Conflict"),
    ("410", "Gone"),
    ("415", "Unsupported Media Type"),
    ("422", "Unprocessable Entity"),
    ("429", "Too Many Requests"),
    ("500", "Internal Server Error"),
    ("501", "Not Implemented"),
    ("502", "Bad Gateway"),
    ("503", "Service Unavailable"),
    ("504", "Gateway Timeout"),
];

/// The phrase of the first entry with the key `code` at or after position `i`.
pub open spec fn phrase_from(table: Seq<(&'static str, &'static str)>, code: Text, i: int) -> Option<
    Text,
>
    decreases table.len() - i,
{
    if i < 0 || i >= table.len() {
        None
    } else if table[i].0@ == code {
        Some(table[i].1@)
    } else {
        phrase_from(table, code, i + 1)
    }
}

/// The phrase of a status code: a standard one, or else a custom one.
pub open spec fn phrase(code: Text) -> Option<Text> {
    match phrase_from(STANDARD@, code, 0) {
        Some(p) => Some(p),
        None => phrase_from(CUSTOM@, code, 0),
    }
}

fn find_phrase(table: &[(&'static str, &'static str)], code: &str) -> (r: Option<&'static str>)
    ensures
        match r {
            Some(p) => phrase_from(table@, code@, 0) == Some(p@),
            None => phrase_from(table@, code@, 0) is None,
        },
{
    let mut i: usize = 0;
    while i < table.len()
        invariant
            i <= table@.len(),
            phrase_from(table@, code@, 0) == phrase_from(table@, code@, i as int),
        decreases table@.len() - i,
    {
        if *table[i].0 == *code {
            return Some(table[i].1);
        }
        i += 1;
    }
    None
}

/// Look up the reason phrase for a status code, or `None` when absent.
pub fn reason_phrase(code: &str) -> (r: Option<&'static str>)
    ensures
        match r {
            Some(p) => phrase(code@) == Some(p@),
            None => phrase(code@) is None,
        },
{
    match find_phrase(&STANDARD, code) {
        Some(p) => Some(p),
        None => find_phrase(&CUSTOM, code),
    }
}

} // verus!
