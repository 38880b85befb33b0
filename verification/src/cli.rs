//! The text that the `mcpgw` command-line tool prints.

use crate::text::{decimal, decimal_text, signed_decimal, signed_decimal_text};
use vstd::prelude::*;

verus! {

/// What `mcpgw server list` prints.
pub const SERVER_LIST_NOTE: &'static str = "Servers are configured in config/default.toml";

/// The first line `mcpgw server add` prints (followed by a blank line).
pub const SERVER_ADD_INTRO: &'static str = "Add to config/default.toml:\n";

/// The table header of a server entry.
pub const SERVER_TABLE: &'static str = "[[servers]]";

/// The `enabled` line of a new server entry.
pub const ENABLED_LINE: &'static str = "enabled = true";

/// The `auth_header` line of a server entry with a key.
pub const AUTH_HEADER_LINE: &'static str = "auth_header = \"Authorization\"";

/// Text shown for a missing field.
pub const MISSING_FIELD: &'static str = "-";

/// Separator between the columns of a log line.
pub const COLUMN_GAP: &'static str = "  ";

/// The label of the request count.
pub const TOTAL_LABEL: &'static str = "total requests : ";

/// The label of the error count.
pub const ERRORS_LABEL: &'static str = "errors         : ";

/// The gateway's statistics endpoint, relative to its base URL.
pub const STATS_PATH: &'static str = "/stats";

/// The URL of the statistics endpoint of the gateway at `gateway`.
pub fn stats_url(gateway: &str) -> (r: String)
    ensures
        r@ == gateway@ + STATS_PATH@,
{
    let mut url = gateway.to_owned();
    url.append(STATS_PATH);
    url
}

/// What `format!("{:?}", s)` gives for a `str`: a Rust string literal.
pub uninterp spec fn debug_quoted(s: Seq<char>) -> Seq<char>;

/// `format!("{:?}", s)` on a `str`. Claims that the result is the named
/// literal.
#[verifier::external_body]
fn debug_quote(s: &str) -> (r: String)
    ensures
        r@ == debug_quoted(s@),
{
    format!("{:?}", s)
}

/// `{key} = {value:?}`.
fn setting_line(key: &str, value: &str) -> (r: String)
    ensures
        r@ == key@ + " = "@ + debug_quoted(value@),
{
    let mut line = key.to_owned();
    line.append(" = ");
    let quoted = debug_quote(value);
    line.append(quoted.as_str());
    line
}

/// The lines `mcpgw server add` prints: a TOML server entry to paste into the
/// configuration, with an `api_key` and default `auth_header` when a key is
/// given.
pub open spec fn server_entry(name: Seq<char>, url: Seq<char>, api_key: Option<Seq<char>>) -> Seq<Seq<char>> {
    let head = seq![
        SERVER_ADD_INTRO@,
        SERVER_TABLE@,
        "name"@ + " = "@ + debug_quoted(name),
        "url"@ + " = "@ + debug_quoted(url),
        ENABLED_LINE@,
    ];
    match api_key {
        Some(k) => head + seq!["api_key"@ + " = "@ + debug_quoted(k), AUTH_HEADER_LINE@],
        None => head,
    }
}

/// Builds the lines of `mcpgw server add`.
pub fn server_entry_lines(name: &str, url: &str, api_key: Option<&str>) -> (r: Vec<String>)
    ensures
        r@.map_values(|l: String| l@) == server_entry(
            name@,
            url@,
            match api_key {
                Some(k) => Some(k@),
                None => None,
            },
        ),
{
    let mut lines: Vec<String> = Vec::new();
    lines.push(SERVER_ADD_INTRO.to_owned());
    lines.push(SERVER_TABLE.to_owned());
    lines.push(setting_line("name", name));
    lines.push(setting_line("url", url));
    lines.push(ENABLED_LINE.to_owned());
    match api_key {
        Some(k) => {
            lines.push(setting_line("api_key", k));
            lines.push(AUTH_HEADER_LINE.to_owned());
        },
        None => {},
    }
    assert(lines@.map_values(|l: String| l@) =~= server_entry(
        name@,
        url@,
        match api_key {
            Some(k) => Some(k@),
            None => None,
        },
    ));
    lines
}

/// A text field of a log record, or `-`.
pub open spec fn field_text(field: Option<Seq<char>>) -> Seq<char> {
    match field {
        Some(f) => f,
        None => MISSING_FIELD@,
    }
}

/// A status column: the number, or `-`.
pub open spec fn status_text(status: Option<i64>) -> Seq<char> {
    match status {
        Some(s) => signed_decimal(s as int),
        None => MISSING_FIELD@,
    }
}

/// A latency column: the number followed by `ms`, or `-`.
pub open spec fn latency_text(latency_ms: Option<i64>) -> Seq<char> {
    match latency_ms {
        Some(l) => signed_decimal(l as int) + "ms"@,
        None => MISSING_FIELD@,
    }
}

/// One line of `mcpgw logs`: time, method, path, status and latency, two
/// spaces apart.
pub open spec fn log_line_text(
    ts: Option<Seq<char>>,
    method: Option<Seq<char>>,
    path: Option<Seq<char>>,
    status: Option<i64>,
    latency_ms: Option<i64>,
) -> Seq<char> {
    field_text(ts) + COLUMN_GAP@ + field_text(method) + COLUMN_GAP@ + field_text(path) + COLUMN_GAP@
        + status_text(status) + COLUMN_GAP@ + latency_text(latency_ms)
}

/// Appends a text field, or `-`.
fn push_field(line: &mut String, field: Option<&str>)
    ensures
        final(line)@ == old(line)@ + field_text(
            match field {
                Some(f) => Some(f@),
                None => None,
            },
        ),
{
    match field {
        Some(f) => line.append(f),
        None => line.append(MISSING_FIELD),
    }
}

/// Builds one line of `mcpgw logs`.
pub fn log_line(
    ts: Option<&str>,
    method: Option<&str>,
    path: Option<&str>,
    status: Option<i64>,
    latency_ms: Option<i64>,
) -> (r: String)
    ensures
        r@ == log_line_text(
            match ts {
                Some(f) => Some(f@),
                None => None,
            },
            match method {
                Some(f) => Some(f@),
                None => None,
            },
            match path {
                Some(f) => Some(f@),
                None => None,
            },
            status,
            latency_ms,
        ),
{
    let mut line = String::new();
    push_field(&mut line, ts);
    line.append(COLUMN_GAP);
    push_field(&mut line, method);
    line.append(COLUMN_GAP);
    push_field(&mut line, path);
    line.append(COLUMN_GAP);
    match status {
        Some(s) => {
            let t = signed_decimal_text(s);
            line.append(t.as_str());
        },
        None => line.append(MISSING_FIELD),
    }
    line.append(COLUMN_GAP);
    match latency_ms {
        Some(l) => {
            let t = signed_decimal_text(l);
            line.append(t.as_str());
            line.append("ms");
        },
        None => line.append(MISSING_FIELD),
    }
    line
}

/// The number of records that carry an error.
pub open spec fn count_errors(has_error: Seq<bool>) -> nat
    decreases has_error.len(),
{
    if has_error.len() == 0 {
        0
    } else {
        count_errors(has_error.drop_last()) + if has_error.last() {
            1nat
        } else {
            0nat
        }
    }
}

/// The error count adds up: that of two runs of records put together is the
/// sum of theirs.
pub proof fn lemma_error_count_adds_up(s: Seq<bool>, t: Seq<bool>)
    ensures
        count_errors(s + t) == count_errors(s) + count_errors(t),
    decreases t.len(),
{
    if t.len() == 0 {
        assert(s + t == s);
    } else {
        lemma_error_count_adds_up(s, t.drop_last());
        assert((s + t).drop_last() == s + t.drop_last());
        assert((s + t).last() == t.last());
    }
}

/// One record counts one error when it carries one and none otherwise; so,
/// with `lemma_error_count_adds_up`, the count is the number of records
/// that carry an error, and never more than the number of records.
pub proof fn lemma_error_count_of_one(b: bool, s: Seq<bool>)
    ensures
        count_errors(seq![b]) == if b {
            1nat
        } else {
            0nat
        },
        count_errors(s.push(b)) == count_errors(s) + if b {
            1nat
        } else {
            0nat
        },
        count_errors(s) <= s.len(),
    decreases s.len(),
{
    assert(seq![b].drop_last() == Seq::<bool>::empty());
    assert(seq![b].last() == b);
    assert(count_errors(Seq::<bool>::empty()) == 0);
    assert(s.push(b).drop_last() == s);
    assert(s.push(b).last() == b);
    if s.len() > 0 {
        lemma_error_count_of_one(b, s.drop_last());
    }
}

/// The two lines of `mcpgw stats` for records of which `has_error` tells
/// which carry an error: how many there are, and how many carry one.
pub fn stats_lines(has_error: &Vec<bool>) -> (r: (String, String))
    ensures
        r.0@ == TOTAL_LABEL@ + decimal(has_error@.len()),
        r.1@ == ERRORS_LABEL@ + decimal(count_errors(has_error@)),
{
    let mut errors: usize = 0;
    let mut i: usize = 0;
    while i < has_error.len()
        invariant
            i <= has_error@.len(),
            errors == count_errors(has_error@.take(i as int)),
            errors <= i,
        decreases has_error@.len() - i,
    {
        assert(has_error@.take(i + 1).drop_last() == has_error@.take(i as int));
        if has_error[i] {
            errors += 1;
        }
        i += 1;
    }
    assert(has_error@.take(has_error@.len() as int) == has_error@);
    let mut total = TOTAL_LABEL.to_owned();
    let n = decimal_text(has_error.len() as u64);
    total.append(n.as_str());
    let mut errs = ERRORS_LABEL.to_owned();
    let e = decimal_text(errors as u64);
    errs.append(e.as_str());
    (total, errs)
}

} // verus!
