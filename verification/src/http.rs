//! The local HTTP API: requests are admitted by origin and size, routed by
//! method and path to the daemon core, and answered with a status and a body.
use vstd::prelude::*;
use vstd::string::StringExecFns;
use vstd::utf8::{decode_utf8, valid_utf8};
use crate::daemon::engine::{
    DaemonCore, DaemonError, action_detailed, actions_listed, default_query, events_listed,
    findings_listed, incident_detailed, incidents_listed, nodes_listed, recent_listed,
    telemetry_reported, texts,
};
use crate::daemon::dispatch::{path_dto, path_reports};
use crate::daemon::actions::{
    ActionStoreError, evaluation_recorded, has_proposal, proposal_at, proposal_created,
    proposal_id_text,
};
use crate::daemon::guard::authority_name;
use crate::daemon::incidents::has_incident;
use crate::guard::authority_for;
use crate::memory::model::MemoryNodeKind;
use crate::memory::rows::StorageError;
use crate::memory::storage::{MemoryPath, PathQuery};
use crate::protocol::action::ActionType;
use crate::protocol::ipc::{
    ActionDetailDto, ActionSummaryDto, CreateActionDto, DaemonStatusDto, GuardStatusDto,
    HealthDto, IncidentDetailDto, IncidentSummaryDto, IntegrityFindingDto, MemoryNodeDto,
    MemoryPathDto, TelemetryEventDto, TelemetryStatusDto,
};
use crate::text::{
    decimal, decimal_spec, ends_with, fields_from, find_char, first_char_index, is_whitespace,
    unicode_whitespace, whitespace_fields, ends_with_spec, parse_usize, split_once, split_once_spec,
    starts_with, starts_with_spec, str_eq, trim_end_matches, trim_end_spec, trim_start_matches,
    trim_start_spec, unsigned_value,
};

verus! {

/// The origins whose browser requests are served.
pub open spec fn allowed_origin(origin: Seq<char>) -> bool {
    origin == "http://127.0.0.1:5173"@ || origin == "http://localhost:5173"@
}

/// The largest request body accepted, in bytes.
pub const MAX_BODY_BYTES: usize = 16384;

pub fn is_allowed_origin(origin: &str) -> (r: bool)
    ensures
        r == allowed_origin(origin@),
{
    str_eq(origin, "http://127.0.0.1:5173") || str_eq(origin, "http://localhost:5173")
}

/// What a request is refused with before routing: a disallowed origin, then
/// a body over the limit.
pub open spec fn refusal(origin: Option<Seq<char>>, content_length: usize) -> Option<(u16, Seq<char>)> {
    if origin matches Some(o) && !allowed_origin(o) {
        Some((403, "origin is not allowed"@))
    } else if content_length > MAX_BODY_BYTES {
        Some((413, "request body is too large"@))
    } else {
        None
    }
}

/// Whether a request is refused before routing, with its status and message.
pub fn admit_request(origin: Option<&str>, content_length: usize) -> (r: Option<(u16, String)>)
    ensures
        match refusal(
            match origin {
                Some(o) => Some(o@),
                None => None,
            },
            content_length,
        ) {
            Some((status, message)) => r matches Some((s, m)) && s == status && m@ == message,
            None => r is None,
        },
{
    match origin {
        Some(o) => if !is_allowed_origin(o) {
            return Some((403, String::from_str("origin is not allowed")));
        },
        None => {},
    }
    if content_length > MAX_BODY_BYTES {
        return Some((413, String::from_str("request body is too large")));
    }
    None
}

/// The reason phrase of a response status.
pub open spec fn reason_phrase(status: u16) -> Seq<char> {
    if status == 200 {
        "OK"@
    } else if status == 201 {
        "Created"@
    } else if status == 400 {
        "Bad Request"@
    } else if status == 403 {
        "Forbidden"@
    } else if status == 404 {
        "Not Found"@
    } else if status == 405 {
        "Method Not Allowed"@
    } else if status == 413 {
        "Payload Too Large"@
    } else {
        "Internal Server Error"@
    }
}

pub fn reason(status: u16) -> (r: &'static str)
    ensures
        r@ == reason_phrase(status),
{
    if status == 200 {
        "OK"
    } else if status == 201 {
        "Created"
    } else if status == 400 {
        "Bad Request"
    } else if status == 403 {
        "Forbidden"
    } else if status == 404 {
        "Not Found"
    } else if status == 405 {
        "Method Not Allowed"
    } else if status == 413 {
        "Payload Too Large"
    } else {
        "Internal Server Error"
    }
}

/// The CORS lines of a response: present only for an allowed origin.
pub open spec fn cors_lines(origin: Option<Seq<char>>) -> Seq<char> {
    match origin {
        Some(o) => if allowed_origin(o) {
            "Access-Control-Allow-Origin: "@ + o + "\r\nVary: Origin\r\n"@
        } else {
            Seq::empty()
        },
        None => Seq::empty(),
    }
}

/// The head of a JSON response with a body of `body_len` bytes.
pub open spec fn response_head_text(status: u16, body_len: usize, origin: Option<Seq<char>>) -> Seq<
    char,
> {
    "HTTP/1.1 "@ + decimal_spec(status as nat) + " "@ + reason_phrase(status)
        + "\r\nContent-Type: application/json; charset=utf-8\r\nContent-Length: "@ + decimal_spec(
        body_len as nat,
    ) + "\r\nCache-Control: no-store\r\nX-Content-Type-Options: nosniff\r\nConnection: close\r\n"@
        + cors_lines(origin) + "\r\n"@
}

/// The head of a JSON response: status line, headers and the blank line.
pub fn response_head(status: u16, body_len: usize, origin: Option<&str>) -> (r: String)
    ensures
        r@ == response_head_text(
            status,
            body_len,
            match origin {
                Some(o) => Some(o@),
                None => None,
            },
        ),
{
    let cors = match origin {
        Some(o) => if is_allowed_origin(o) {
            String::from_str("Access-Control-Allow-Origin: ").concat(o).concat("\r\nVary: Origin\r\n")
        } else {
            String::new()
        },
        None => String::new(),
    };
    String::from_str("HTTP/1.1 ").concat(decimal(status as u64).as_str()).concat(" ").concat(
        reason(status),
    ).concat("\r\nContent-Type: application/json; charset=utf-8\r\nContent-Length: ").concat(
        decimal(body_len as u64).as_str(),
    ).concat(
        "\r\nCache-Control: no-store\r\nX-Content-Type-Options: nosniff\r\nConnection: close\r\n",
    ).concat(cors.as_str()).concat("\r\n")
}

/// The value of a hexadecimal digit.
pub open spec fn hex_value(b: u8) -> Option<u8> {
    if 48 <= b <= 57 {
        Some((b - 48) as u8)
    } else if 97 <= b <= 102 {
        Some((b - 97 + 10) as u8)
    } else if 65 <= b <= 70 {
        Some((b - 65 + 10) as u8)
    } else {
        None
    }
}

pub fn hex(value: u8) -> (r: Option<u8>)
    ensures
        r == hex_value(value),
{
    if 48u8 <= value && value <= 57u8 {
        Some(value - 48u8)
    } else if 97u8 <= value && value <= 102u8 {
        Some(value - 97u8 + 10)
    } else if 65u8 <= value && value <= 70u8 {
        Some(value - 65u8 + 10)
    } else {
        None
    }
}

/// The bytes a percent-encoded text decodes to: `%` and two hexadecimal
/// digits give a byte, `+` gives a space, and any other byte stands for
/// itself; a `%` with three or more bytes left must be followed by two
/// hexadecimal digits.
pub open spec fn percent_bytes(b: Seq<u8>) -> Option<Seq<u8>>
    decreases b.len(),
{
    if b.len() == 0 {
        Some(Seq::empty())
    } else if b[0] == 37 && 2 < b.len() {
        match (hex_value(b[1]), hex_value(b[2])) {
            (Some(h), Some(l)) => match percent_bytes(b.skip(3)) {
                Some(rest) => Some(seq![(h * 16 + l) as u8] + rest),
                None => None,
            },
            _ => None,
        }
    } else if b[0] == 43 {
        match percent_bytes(b.skip(1)) {
            Some(rest) => Some(seq![32u8] + rest),
            None => None,
        }
    } else {
        match percent_bytes(b.skip(1)) {
            Some(rest) => Some(seq![b[0]] + rest),
            None => None,
        }
    }
}

/// Why a request could not be routed.
#[derive(Debug)]
pub enum HttpRouteError {
    NotFound(String),
    BadRequest(String),
    MethodNotAllowed(String),
    Daemon(DaemonError),
}

/// What percent-decoding a text gives: the decoded text, or the message of
/// the bad request it is refused with.
pub open spec fn percent_decoded(text: Seq<u8>) -> Result<Seq<char>, Seq<char>> {
    match percent_bytes(text) {
        None => Err("invalid percent encoding"@),
        Some(b) => if valid_utf8(b) {
            Ok(decode_utf8(b))
        } else {
            Err("query parameter is not UTF-8"@)
        },
    }
}

/// Calls `String::from_utf8`, which gives back the text the bytes encode and
/// refuses bytes that are not UTF-8.
#[verifier::external_body]
fn utf8_text(bytes: Vec<u8>) -> (r: Option<String>)
    ensures
        r is Some <==> valid_utf8(bytes@),
        r matches Some(s) ==> s@ == decode_utf8(bytes@),
{
    String::from_utf8(bytes).ok()
}

fn decode_range(bytes: &[u8], start: usize, end: usize) -> (r: Result<String, HttpRouteError>)
    requires
        start <= end <= bytes@.len(),
    ensures
        match percent_decoded(bytes@.subrange(start as int, end as int)) {
            Ok(t) => r matches Ok(s) && s@ == t,
            Err(m) => r matches Err(HttpRouteError::BadRequest(s)) && s@ == m,
        },
{
    let ghost whole = bytes@.subrange(start as int, end as int);
    let mut output: Vec<u8> = Vec::new();
    let mut index: usize = start;
    while index < end
        invariant
            start <= index <= end,
            end <= bytes@.len(),
            whole == bytes@.subrange(start as int, end as int),
            percent_bytes(whole) == match percent_bytes(bytes@.subrange(index as int, end as int)) {
                Some(rest) => Some(output@ + rest),
                None => None,
            },
        decreases end - index,
    {
        let ghost rest = bytes@.subrange(index as int, end as int);
        assert(rest[0] == bytes@[index as int]);
        if bytes[index] == 37u8 && 2 < end - index {
            assert(rest[1] == bytes@[index + 1] && rest[2] == bytes@[index + 2]);
            assert(rest.skip(3) =~= bytes@.subrange(index + 3, end as int));
            let high = match hex(bytes[index + 1]) {
                Some(h) => h,
                None => {
                    proof {
                        reveal_strlit("invalid percent encoding");
                    }
                    return Err(HttpRouteError::BadRequest(String::from_str("invalid percent encoding")));
                },
            };
            let low = match hex(bytes[index + 2]) {
                Some(l) => l,
                None => {
                    proof {
                        reveal_strlit("invalid percent encoding");
                    }
                    return Err(HttpRouteError::BadRequest(String::from_str("invalid percent encoding")));
                },
            };
            let value = (high << 4) | low;
            assert(value == high * 16 + low) by (bit_vector)
                requires
                    high < 16,
                    low < 16,
                    value == (high << 4) | low,
            ;
            let ghost before = output@;
            output.push(value);
            proof {
                match percent_bytes(bytes@.subrange(index + 3, end as int)) {
                    Some(r2) => {
                        assert(before + (seq![value] + r2) =~= output@ + r2);
                    },
                    None => {},
                }
            }
            index = index + 3;
        } else if bytes[index] == 43u8 {
            assert(rest.skip(1) =~= bytes@.subrange(index + 1, end as int));
            let ghost before = output@;
            output.push(32u8);
            proof {
                match percent_bytes(bytes@.subrange(index + 1, end as int)) {
                    Some(r2) => {
                        assert(before + (seq![32u8] + r2) =~= output@ + r2);
                    },
                    None => {},
                }
            }
            index = index + 1;
        } else {
            assert(rest.skip(1) =~= bytes@.subrange(index + 1, end as int));
            let ghost before = output@;
            output.push(bytes[index]);
            proof {
                match percent_bytes(bytes@.subrange(index + 1, end as int)) {
                    Some(r2) => {
                        assert(before + (seq![bytes@[index as int]] + r2) =~= output@ + r2);
                    },
                    None => {},
                }
            }
            index = index + 1;
        }
    }
    proof {
        assert(bytes@.subrange(end as int, end as int) =~= Seq::<u8>::empty());
        assert(output@ + Seq::<u8>::empty() =~= output@);
    }
    match utf8_text(output) {
        Some(text) => Ok(text),
        None => {
            proof {
                reveal_strlit("query parameter is not UTF-8");
            }
            Err(HttpRouteError::BadRequest(String::from_str("query parameter is not UTF-8")))
        },
    }
}

/// Decodes a percent-encoded text.
pub fn percent_decode(value: &str) -> (r: Result<String, HttpRouteError>)
    ensures
        match percent_decoded(crate::text::utf8_of(value@)) {
            Ok(t) => r matches Ok(s) && s@ == t,
            Err(m) => r matches Err(HttpRouteError::BadRequest(s)) && s@ == m,
        },
{
    let bytes = value.as_bytes();
    assert(bytes@.subrange(0, bytes@.len() as int) =~= bytes@);
    decode_range(bytes, 0, bytes.len())
}

/// The position of the first `sep` in `s`, or its length when there is none.
pub open spec fn first_sep(s: Seq<u8>, sep: u8) -> int
    decreases s.len(),
{
    if s.len() == 0 {
        0
    } else if s[0] == sep {
        0
    } else {
        1 + first_sep(s.skip(1), sep)
    }
}

proof fn lemma_first_sep(s: Seq<u8>, sep: u8, j: int)
    requires
        0 <= j <= s.len(),
        forall|k: int| 0 <= k < j ==> s[k] != sep,
        j == s.len() || s[j] == sep,
    ensures
        first_sep(s, sep) == j,
    decreases j,
{
    if j > 0 {
        assert forall|k: int| 0 <= k < j - 1 implies s.skip(1)[k] != sep by {
            assert(s.skip(1)[k] == s[k + 1]);
        }
        if j < s.len() {
            assert(s.skip(1)[j - 1] == s[j]);
        }
        lemma_first_sep(s.skip(1), sep, j - 1);
    }
}

/// The parts of `s` between the separators `sep`.
pub open spec fn split_bytes(s: Seq<u8>, sep: u8) -> Seq<Seq<u8>>
    decreases s.len(),
{
    let i = first_sep(s, sep);
    if i >= s.len() {
        seq![s]
    } else {
        proof {
            lemma_first_sep_bound(s, sep);
        }
        seq![s.take(i)] + split_bytes(s.skip(i + 1), sep)
    }
}

pub proof fn lemma_first_sep_bound(s: Seq<u8>, sep: u8)
    ensures
        0 <= first_sep(s, sep) <= s.len(),
        first_sep(s, sep) < s.len() ==> s[first_sep(s, sep)] == sep,
    decreases s.len(),
{
    if s.len() > 0 && s[0] != sep {
        lemma_first_sep_bound(s.skip(1), sep);
        if first_sep(s.skip(1), sep) < s.skip(1).len() {
            assert(s.skip(1)[first_sep(s.skip(1), sep)] == s[first_sep(s, sep)]);
        }
    }
}

/// A query pair's key and value: around its first `=`, or the whole pair
/// with an empty value.
pub open spec fn pair_parts(pair: Seq<u8>) -> (Seq<u8>, Seq<u8>) {
    let i = first_sep(pair, 61);
    if i >= pair.len() {
        (pair, Seq::empty())
    } else {
        (pair.take(i), pair.skip(i + 1))
    }
}

/// The decoded pairs of a sequence of query parts, or the message of the
/// first part that fails to decode, its key before its value.
pub open spec fn decoded_pairs(parts: Seq<Seq<u8>>) -> Result<Seq<(Seq<char>, Seq<char>)>, Seq<char>>
    decreases parts.len(),
{
    if parts.len() == 0 {
        Ok(Seq::empty())
    } else {
        match percent_decoded(pair_parts(parts[0]).0) {
            Err(m) => Err(m),
            Ok(k) => match percent_decoded(pair_parts(parts[0]).1) {
                Err(m) => Err(m),
                Ok(v) => match decoded_pairs(parts.skip(1)) {
                    Err(m) => Err(m),
                    Ok(rest) => Ok(seq![(k, v)] + rest),
                },
            },
        }
    }
}

/// The pairs a query string holds, in order: none for an empty query.
pub open spec fn query_pairs(query: Seq<u8>) -> Result<Seq<(Seq<char>, Seq<char>)>, Seq<char>> {
    if query.len() == 0 {
        Ok(Seq::empty())
    } else {
        decoded_pairs(split_bytes(query, 38))
    }
}

/// The value the last pair with key `key` gives.
pub open spec fn lookup(pairs: Seq<(Seq<char>, Seq<char>)>, key: Seq<char>) -> Option<Seq<char>>
    decreases pairs.len(),
{
    if pairs.len() == 0 {
        None
    } else if pairs.last().0 == key {
        Some(pairs.last().1)
    } else {
        lookup(pairs.drop_last(), key)
    }
}

/// The parameters of a query string; a later pair with the same key wins.
pub struct QueryParameters {
    pairs: Vec<(String, String)>,
}

impl QueryParameters {
    pub closed spec fn pairs_view(&self) -> Seq<(Seq<char>, Seq<char>)> {
        self.pairs@.map_values(|p: (String, String)| (p.0@, p.1@))
    }

    /// The value of the parameter `key`.
    pub fn get(&self, key: &str) -> (r: Option<&String>)
        ensures
            match lookup(self.pairs_view(), key@) {
                Some(v) => r matches Some(s) && s@ == v,
                None => r is None,
            },
    {
        let ghost v = self.pairs_view();
        let mut i: usize = self.pairs.len();
        assert(v.take(v.len() as int) =~= v);
        while i > 0
            invariant
                v == self.pairs_view(),
                i <= v.len(),
                lookup(v, key@) == lookup(v.take(i as int), key@),
            decreases i,
        {
            proof {
                let t = v.take(i as int);
                assert(t.last() == v[i - 1]);
                assert(t.drop_last() =~= v.take(i - 1));
            }
            if str_eq(self.pairs[i - 1].0.as_str(), key) {
                return Some(&self.pairs[i - 1].1);
            }
            i = i - 1;
        }
        None
    }
}

proof fn lemma_decoded_step(
    parts: Seq<Seq<u8>>,
    k: Seq<char>,
    v: Seq<char>,
    before: Seq<(Seq<char>, Seq<char>)>,
)
    requires
        parts.len() > 0,
        percent_decoded(pair_parts(parts[0]).0) == Ok::<Seq<char>, Seq<char>>(k),
        percent_decoded(pair_parts(parts[0]).1) == Ok::<Seq<char>, Seq<char>>(v),
    ensures
        (match decoded_pairs(parts) {
            Ok(rest) => Ok::<Seq<(Seq<char>, Seq<char>)>, Seq<char>>(before + rest),
            Err(m) => Err(m),
        }) == (match decoded_pairs(parts.skip(1)) {
            Ok(rest) => Ok::<Seq<(Seq<char>, Seq<char>)>, Seq<char>>(before.push((k, v)) + rest),
            Err(m) => Err(m),
        }),
{
    match decoded_pairs(parts.skip(1)) {
        Ok(rest) => {
            assert(before + (seq![(k, v)] + rest) =~= before.push((k, v)) + rest);
        },
        Err(_) => {},
    }
}

/// Parses a query string into its parameters.
#[verifier::rlimit(40)]
pub fn parse_query(query: &str) -> (r: Result<QueryParameters, HttpRouteError>)
    ensures
        match query_pairs(crate::text::utf8_of(query@)) {
            Ok(pairs) => r matches Ok(q) && q.pairs_view() == pairs,
            Err(m) => r matches Err(HttpRouteError::BadRequest(s)) && s@ == m,
        },
{
    let bytes = query.as_bytes();
    let ghost q = bytes@;
    let mut pairs: Vec<(String, String)> = Vec::new();
    if bytes.len() == 0 {
        let r = QueryParameters { pairs };
        assert(r.pairs_view() =~= Seq::empty());
        return Ok(r);
    }
    let mut start: usize = 0;
    proof {
        assert(q.subrange(0, q.len() as int) =~= q);
        match decoded_pairs(split_bytes(q, 38)) {
            Ok(rest) => {
                assert(pairs@.map_values(|p: (String, String)| (p.0@, p.1@)) + rest =~= rest);
            },
            Err(_) => {},
        }
    }
    loop
        invariant
            q == bytes@,
            q == crate::text::utf8_of(query@),
            q.len() > 0,
            start <= q.len(),
            decoded_pairs(split_bytes(q, 38)) == match decoded_pairs(
                split_bytes(q.subrange(start as int, q.len() as int), 38),
            ) {
                Ok(rest) => Ok(pairs@.map_values(|p: (String, String)| (p.0@, p.1@)) + rest),
                Err(m) => Err(m),
            },
        decreases q.len() - start,
    {
        let ghost rest = q.subrange(start as int, q.len() as int);
        let mut j: usize = start;
        while j < bytes.len() && bytes[j] != 38u8
            invariant
                start <= j <= q.len(),
                q == bytes@,
                forall|k: int| start <= k < j ==> q[k] != 38u8,
            decreases q.len() - j,
        {
            j = j + 1;
        }
        proof {
            assert forall|k: int| 0 <= k < j - start implies rest[k] != 38u8 by {
                assert(rest[k] == q[start + k]);
            }
            if j < q.len() {
                assert(rest[j - start] == q[j as int]);
            }
            lemma_first_sep(rest, 38u8, j - start);
        }
        let ghost part = q.subrange(start as int, j as int);
        assert(part =~= if j - start >= rest.len() { rest } else { rest.take(j - start) });
        let mut eq: usize = start;
        while eq < j && bytes[eq] != 61u8
            invariant
                start <= eq <= j,
                j <= q.len(),
                q == bytes@,
                forall|k: int| start <= k < eq ==> q[k] != 61u8,
            decreases j - eq,
        {
            eq = eq + 1;
        }
        proof {
            assert forall|k: int| 0 <= k < eq - start implies part[k] != 61u8 by {
                assert(part[k] == q[start + k]);
            }
            if eq < j {
                assert(part[eq - start] == q[eq as int]);
            }
            lemma_first_sep(part, 61u8, eq - start);
        }
        let (key_end, value_start) = if eq < j {
            (eq, eq + 1)
        } else {
            (j, j)
        };
        proof {
            let (pk, pv) = pair_parts(part);
            if eq < j {
                assert(pk =~= q.subrange(start as int, eq as int));
                assert(pv =~= q.subrange(eq + 1, j as int));
            } else {
                assert(pk =~= q.subrange(start as int, j as int));
                assert(pv =~= q.subrange(j as int, j as int));
            }
        }
        proof {
            let s1 = split_bytes(rest, 38u8);
            lemma_first_sep_bound(rest, 38u8);
            assert(s1[0] == part);
        }
        let ghost s1 = split_bytes(rest, 38u8);
        assert(s1.len() > 0 && s1[0] == part);
        assert(pair_parts(part).0 == q.subrange(start as int, key_end as int));
        assert(pair_parts(part).1 == q.subrange(value_start as int, j as int));
        let key = match decode_range(bytes, start, key_end) {
            Ok(k) => k,
            Err(e) => {
                proof {
                    assert(percent_decoded(pair_parts(s1[0]).0) is Err);
                    assert(decoded_pairs(s1) == Err::<Seq<(Seq<char>, Seq<char>)>, Seq<char>>(
                        percent_decoded(pair_parts(s1[0]).0)->Err_0,
                    ));
                }
                return Err(e);
            },
        };
        let value = match decode_range(bytes, value_start, j) {
            Ok(v) => v,
            Err(e) => {
                proof {
                    assert(percent_decoded(pair_parts(s1[0]).1) is Err);
                    assert(decoded_pairs(s1) == Err::<Seq<(Seq<char>, Seq<char>)>, Seq<char>>(
                        percent_decoded(pair_parts(s1[0]).1)->Err_0,
                    ));
                }
                return Err(e);
            },
        };
        let ghost before = pairs@;
        let ghost bv = before.map_values(|p: (String, String)| (p.0@, p.1@));
        pairs.push((key, value));
        proof {
            assert(pairs@.map_values(|p: (String, String)| (p.0@, p.1@)) =~= bv.push((key@, value@)));
            lemma_decoded_step(s1, key@, value@, bv);
        }
        if j == bytes.len() {
            proof {
                assert(s1 == seq![rest]);
                assert(s1.skip(1) =~= Seq::<Seq<u8>>::empty());
                assert(bv.push((key@, value@)) + Seq::<(Seq<char>, Seq<char>)>::empty() =~= bv.push(
                    (key@, value@),
                ));
            }
            let r = QueryParameters { pairs };
            return Ok(r);
        }
        proof {
            assert(rest.skip(j - start + 1) =~= q.subrange(j + 1, q.len() as int));
            assert(s1.skip(1) =~= split_bytes(q.subrange(j + 1, q.len() as int), 38u8));
        }
        start = j + 1;
    }
}

/// The value of a required query parameter, which must be present and not
/// empty.
pub fn required_query<'a>(query: &'a QueryParameters, key: &str) -> (r: Result<&'a str, HttpRouteError>)
    ensures
        match lookup(query.pairs_view(), key@) {
            Some(v) => if v.len() > 0 {
                r matches Ok(s) && s@ == v
            } else {
                r matches Err(HttpRouteError::BadRequest(m)) && m@ == "missing query parameter: "@ + key@
            },
            None => r matches Err(HttpRouteError::BadRequest(m)) && m@ == "missing query parameter: "@
                + key@,
        },
{
    match query.get(key) {
        Some(value) => {
            if value.unicode_len() > 0 {
                return Ok(value.as_str());
            }
        },
        None => {},
    }
    proof {
        reveal_strlit("missing query parameter: ");
    }
    Err(HttpRouteError::BadRequest(String::from_str("missing query parameter: ").concat(key)))
}

/// The body of a routed response, before it is written as JSON.
pub enum HttpBody {
    Status(DaemonStatusDto),
    Health(HealthDto),
    Incidents(Vec<IncidentSummaryDto>),
    Incident(IncidentDetailDto),
    MemoryNodes(Vec<MemoryNodeDto>),
    MemoryNeighbours { node_id: String, neighbours: Vec<String> },
    MemoryPath(Option<MemoryPathDto>),
    GuardStatus(GuardStatusDto),
    GuardFindings(Vec<IntegrityFindingDto>),
    TelemetryStatus(TelemetryStatusDto),
    TelemetryRecent(Vec<TelemetryEventDto>),
    Actions(Vec<ActionSummaryDto>),
    Action(ActionDetailDto),
    Created(ActionDetailDto),
}

impl HttpBody {
    /// The status a body is answered with: 201 for a created proposal, 200
    /// otherwise.
    pub fn status(&self) -> (r: u16)
        ensures
            r == if self is Created {
                201u16
            } else {
                200u16
            },
    {
        match self {
            HttpBody::Created(_) => 201,
            _ => 200,
        }
    }
}

/// What a request is answered with besides the core: the daemon's version,
/// its socket path, the current time, and whether the memory store answered
/// a health probe.
pub struct HttpContext {
    pub version: String,
    pub socket_path: String,
    pub now: u64,
    pub memory_reachable: bool,
}

/// The routes of the API.
pub enum Route {
    Status,
    Health,
    Incidents,
    MemoryNodes,
    MemoryRecent,
    MemoryNeighbours,
    MemoryPath,
    Guard,
    GuardFindings,
    TelemetryStatus,
    TelemetryRecent,
    Actions,
    CreateAction,
    Incident(String),
    Action(String),
    EvaluateAction(String),
    NotFound,
    MethodNotAllowed,
}

/// The route of a method and path: the fixed paths first, then the
/// incident and proposal paths with an encoded identifier after their
/// prefix, then any other GET or POST as not found, and any other method as
/// not allowed.
pub open spec fn route_of(method: Seq<char>, path: Seq<char>, r: Route) -> bool {
    let get = method == "GET"@;
    let post = method == "POST"@;
    let incidents = "/api/v1/incidents/"@;
    let actions = "/api/v1/actions/"@;
    if get && path == "/api/v1/status"@ {
        r is Status
    } else if get && path == "/api/v1/health"@ {
        r is Health
    } else if get && path == "/api/v1/incidents"@ {
        r is Incidents
    } else if get && path == "/api/v1/memory/nodes"@ {
        r is MemoryNodes
    } else if get && path == "/api/v1/memory/recent"@ {
        r is MemoryRecent
    } else if get && path == "/api/v1/memory/neighbours"@ {
        r is MemoryNeighbours
    } else if get && path == "/api/v1/memory/path"@ {
        r is MemoryPath
    } else if get && path == "/api/v1/guard"@ {
        r is Guard
    } else if get && path == "/api/v1/guard/findings"@ {
        r is GuardFindings
    } else if get && path == "/api/v1/telemetry/status"@ {
        r is TelemetryStatus
    } else if get && path == "/api/v1/telemetry/recent"@ {
        r is TelemetryRecent
    } else if get && path == "/api/v1/actions"@ {
        r is Actions
    } else if post && path == "/api/v1/actions"@ {
        r is CreateAction
    } else if get && starts_with_spec(path, incidents) {
        r matches Route::Incident(e) && e@ == trim_start_spec(path, incidents)
    } else if get && starts_with_spec(path, actions) {
        r matches Route::Action(e) && e@ == trim_start_spec(path, actions)
    } else if post && starts_with_spec(path, actions) && ends_with_spec(path, "/evaluate"@) {
        r matches Route::EvaluateAction(e) && e@ == trim_end_spec(
            trim_end_spec(trim_start_spec(path, actions), "/evaluate"@),
            "/"@,
        )
    } else if get || post {
        r is NotFound
    } else {
        r is MethodNotAllowed
    }
}

/// The route of a method and path.
pub fn classify(method: &str, path: &str) -> (r: Route)
    ensures
        route_of(method@, path@, r),
{
    let get = str_eq(method, "GET");
    let post = str_eq(method, "POST");
    if get && str_eq(path, "/api/v1/status") {
        Route::Status
    } else if get && str_eq(path, "/api/v1/health") {
        Route::Health
    } else if get && str_eq(path, "/api/v1/incidents") {
        Route::Incidents
    } else if get && str_eq(path, "/api/v1/memory/nodes") {
        Route::MemoryNodes
    } else if get && str_eq(path, "/api/v1/memory/recent") {
        Route::MemoryRecent
    } else if get && str_eq(path, "/api/v1/memory/neighbours") {
        Route::MemoryNeighbours
    } else if get && str_eq(path, "/api/v1/memory/path") {
        Route::MemoryPath
    } else if get && str_eq(path, "/api/v1/guard") {
        Route::Guard
    } else if get && str_eq(path, "/api/v1/guard/findings") {
        Route::GuardFindings
    } else if get && str_eq(path, "/api/v1/telemetry/status") {
        Route::TelemetryStatus
    } else if get && str_eq(path, "/api/v1/telemetry/recent") {
        Route::TelemetryRecent
    } else if get && str_eq(path, "/api/v1/actions") {
        Route::Actions
    } else if post && str_eq(path, "/api/v1/actions") {
        Route::CreateAction
    } else if get && starts_with(path, "/api/v1/incidents/") {
        Route::Incident(trim_start_matches(path, "/api/v1/incidents/"))
    } else if get && starts_with(path, "/api/v1/actions/") {
        Route::Action(trim_start_matches(path, "/api/v1/actions/"))
    } else if post && starts_with(path, "/api/v1/actions/") && ends_with(path, "/evaluate") {
        let id = trim_start_matches(path, "/api/v1/actions/");
        let id = trim_end_matches(id.as_str(), "/evaluate");
        Route::EvaluateAction(trim_end_matches(id.as_str(), "/"))
    } else if get || post {
        Route::NotFound
    } else {
        Route::MethodNotAllowed
    }
}

/// The value of a required query parameter, or the message of the bad
/// request its absence is answered with.
pub open spec fn required_value(pairs: Seq<(Seq<char>, Seq<char>)>, key: Seq<char>) -> Result<
    Seq<char>,
    Seq<char>,
> {
    match lookup(pairs, key) {
        Some(v) => if v.len() > 0 {
            Ok(v)
        } else {
            Err("missing query parameter: "@ + key)
        },
        None => Err("missing query parameter: "@ + key),
    }
}

/// The limit a query asks for: `default` when absent, the number given
/// capped at `cap`, or the message of the bad request a malformed one is
/// answered with.
pub open spec fn limit_value(pairs: Seq<(Seq<char>, Seq<char>)>, default: usize, cap: usize) -> Result<
    usize,
    Seq<char>,
> {
    match lookup(pairs, "limit"@) {
        None => Ok(if default < cap { default } else { cap }),
        Some(v) => match unsigned_value(v) {
            Some(n) => if n <= usize::MAX {
                Ok(if n < cap { n as usize } else { cap })
            } else {
                Err("limit must be a positive integer"@)
            },
            None => Err("limit must be a positive integer"@),
        },
    }
}

/// A limit parameter: `default` when absent, the parsed number capped at
/// `cap`, or a bad request.
fn limit_parameter(query: &QueryParameters, default: usize, cap: usize) -> (r: Result<usize, HttpRouteError>)
    ensures
        match lookup(query.pairs_view(), "limit"@) {
            None => r == Ok::<usize, HttpRouteError>(if default < cap { default } else { cap }),
            Some(v) => match unsigned_value(v) {
                Some(n) => if n <= usize::MAX {
                    r == Ok::<usize, HttpRouteError>(if n < cap { n as usize } else { cap })
                } else {
                    r matches Err(HttpRouteError::BadRequest(m)) && m@ == "limit must be a positive integer"@
                },
                None => r matches Err(HttpRouteError::BadRequest(m)) && m@ == "limit must be a positive integer"@,
            },
        },
{
    proof {
        reveal_strlit("limit must be a positive integer");
    }
    let value = match query.get("limit") {
        None => default,
        Some(text) => match parse_usize(text.as_str()) {
            Some(n) => n,
            None => {
                return Err(HttpRouteError::BadRequest(String::from_str("limit must be a positive integer")));
            },
        },
    };
    Ok(if value < cap { value } else { cap })
}

/// Whether `r` answers the route `route` on the core `before`, which became
/// `after`, with the query's pairs `pairs` and the decoded body `body`: each
/// route is answered by the body of its kind reporting the core, a missing
/// or malformed parameter by a bad request, a missing incident or proposal by
/// not found, and a failing core operation by the operation's error.
pub open spec fn route_answered(
    before: DaemonCore,
    after: DaemonCore,
    context: HttpContext,
    route: Route,
    pairs: Seq<(Seq<char>, Seq<char>)>,
    body: Result<CreateActionDto, String>,
    r: Result<HttpBody, HttpRouteError>,
) -> bool {
    &&& !(route is CreateAction || route is EvaluateAction) ==> after == before
    &&& after.memory_spec() == before.memory_spec()
    &&& after.incidents_spec() == before.incidents_spec()
    &&& after.guard_spec() == before.guard_spec()
    &&& after.recent_events() == before.recent_events()
    &&& match route {
        Route::NotFound => r matches Err(HttpRouteError::NotFound(m)) && m@ == "API route was not found"@,
        Route::MethodNotAllowed => r matches Err(HttpRouteError::MethodNotAllowed(m)) && m@
            == "only GET and the documented safe POST action routes are supported"@,
        Route::Status => r matches Ok(HttpBody::Status(s)) && s.version@ == context.version@
            && s.socket_path@ == context.socket_path@ && s.observations_ingested == before.ingested()
            && s.incidents_open == before.incidents_spec().incidents_view().filter(
            |i: crate::daemon::incidents::IncidentView| i.status == "open"@,
        ).len() && s.memory_nodes_known == before.memory_spec().node_seq().len(),
        Route::Health => r matches Ok(HttpBody::Health(h)) && h.daemon@ == "ok"@ && h.memory@
            == crate::daemon::dispatch::health_word(context.memory_reachable)
            && h.guard@ == before.guard_spec().state().name(),
        Route::Incidents => r matches Ok(HttpBody::Incidents(v)) && incidents_listed(before, v@),
        Route::MemoryNodes => match lookup(pairs, "kind"@) {
            Some(k) => match MemoryNodeKind::from_name_spec(k) {
                None => r matches Err(
                    HttpRouteError::Daemon(DaemonError::Memory(StorageError::InvalidNodeKind(t))),
                ) && t@ == k,
                Some(parsed) => r matches Ok(HttpBody::MemoryNodes(v)) && nodes_listed(before, Some(parsed), v@),
            },
            None => r matches Ok(HttpBody::MemoryNodes(v)) && nodes_listed(before, None, v@),
        },
        Route::MemoryRecent => match limit_value(pairs, 20, 500) {
            Ok(limit) => r matches Ok(HttpBody::MemoryNodes(v)) && recent_listed(before, limit, v@),
            Err(m) => r matches Err(HttpRouteError::BadRequest(t)) && t@ == m,
        },
        Route::MemoryNeighbours => match required_value(pairs, "node_id"@) {
            Ok(id) => r matches Ok(HttpBody::MemoryNeighbours { node_id, neighbours }) && node_id@ == id
                && crate::memory::keyed::sorted_by_key(texts(neighbours@), |x: Seq<char>| x)
                && forall|k: Seq<char>|
                texts(neighbours@).contains(k) <==> before.memory_spec().is_neighbour(id, k),
            Err(m) => r matches Err(HttpRouteError::BadRequest(t)) && t@ == m,
        },
        Route::MemoryPath => match (required_value(pairs, "source"@), required_value(pairs, "target"@)) {
            (Err(m), _) => r matches Err(HttpRouteError::BadRequest(t)) && t@ == m,
            (Ok(_), Err(m)) => r matches Err(HttpRouteError::BadRequest(t)) && t@ == m,
            (Ok(source), Ok(target)) => r matches Ok(HttpBody::MemoryPath(path)) && (source == target
                ==> path is Some) && (path matches Some(d) ==> exists|q: PathQuery, p: MemoryPath|
                #[trigger] default_query(q) && #[trigger] before.memory_spec().is_found_path(
                    q,
                    source,
                    target,
                    p,
                ) && before.memory_spec().shortest(q, source, target, p)
                && before.memory_spec().searched(q, source, target, p) && path_reports(d, p)) && (path is None ==> exists|q: PathQuery|
                #[trigger] default_query(q) && !before.memory_spec().reaches_within(q, source, target, 8)),
        },
        Route::Guard => r matches Ok(HttpBody::GuardStatus(g)) && g.trust_state@
            == before.guard_spec().state().name() && g.authority@ == authority_name(
            before.guard_spec().state(),
        ) && g.findings_count == before.guard_spec().findings_view().len(),
        Route::GuardFindings => r matches Ok(HttpBody::GuardFindings(v)) && findings_listed(before, v@),
        Route::TelemetryStatus => r matches Ok(HttpBody::TelemetryStatus(t)) && telemetry_reported(before, t),
        Route::TelemetryRecent => match limit_value(pairs, 100, 512) {
            Ok(limit) => r matches Ok(HttpBody::TelemetryRecent(v)) && events_listed(before, limit, v@),
            Err(m) => r matches Err(HttpRouteError::BadRequest(t)) && t@ == m,
        },
        Route::Actions => r matches Ok(HttpBody::Actions(v)) && actions_listed(before, v@),
        Route::CreateAction => match body {
            Err(e) => r matches Err(HttpRouteError::BadRequest(m)) && m@ == "invalid JSON body: "@ + e@
                && after == before,
            Ok(request) => {
                &&& !has_incident(before.incidents_spec().incidents_view(), request.incident_id@) ==> (r matches Err(
                    HttpRouteError::Daemon(DaemonError::Actions(ActionStoreError::InvalidProposal(m))),
                ) && m@ == "incident "@ + request.incident_id@ + " does not exist"@)
                &&& has_incident(before.incidents_spec().incidents_view(), request.incident_id@) ==> (r is Ok
                    <==> ActionType::from_name_spec(request.action@) is Some && !has_proposal(
                    before.actions_spec().proposals_view(),
                    proposal_id_text(before.actions_spec().next_proposal_count()),
                ))
                &&& r matches Ok(b) ==> (b matches HttpBody::Created(d) && proposal_created(
                    before.actions_spec(),
                    after.actions_spec(),
                    request.incident_id@,
                    request.action@,
                    request.target@,
                    context.now,
                    d,
                ))
                &&& r matches Err(e) ==> e matches HttpRouteError::Daemon(DaemonError::Actions(_))
            },
        },
        Route::Incident(encoded) => match percent_decoded(crate::text::utf8_of(encoded@)) {
            Err(m) => r matches Err(HttpRouteError::BadRequest(t)) && t@ == m,
            Ok(id) => if has_incident(before.incidents_spec().incidents_view(), id) {
                r matches Ok(HttpBody::Incident(d)) && incident_detailed(before, id, d)
            } else {
                r matches Err(HttpRouteError::NotFound(m)) && m@ == "incident "@ + id + " was not found"@
            },
        },
        Route::Action(encoded) => match percent_decoded(crate::text::utf8_of(encoded@)) {
            Err(m) => r matches Err(HttpRouteError::BadRequest(t)) && t@ == m,
            Ok(id) => if has_proposal(before.actions_spec().proposals_view(), id) {
                r matches Ok(HttpBody::Action(d)) && action_detailed(before, id, d)
            } else {
                r matches Err(HttpRouteError::NotFound(m)) && m@ == "action proposal "@ + id
                    + " was not found"@
            },
        },
        Route::EvaluateAction(encoded) => match percent_decoded(crate::text::utf8_of(encoded@)) {
            Err(m) => r matches Err(HttpRouteError::BadRequest(t)) && t@ == m && after == before,
            Ok(id) => {
                &&& r is Ok <==> exists|i: int|
                    proposal_at(before.actions_spec().proposals_view(), id, i) && ActionType::from_name_spec(
                        before.actions_spec().proposals_view()[i].action,
                    ) is Some
                &&& !has_proposal(before.actions_spec().proposals_view(), id) ==> (r matches Err(
                    HttpRouteError::Daemon(DaemonError::Actions(ActionStoreError::InvalidProposal(m))),
                ) && m@ == "proposal "@ + id + " not found"@)
                &&& r matches Ok(b) ==> (b matches HttpBody::Action(d) && exists|
                    i: int,
                    rep: crate::action::TransactionReport,
                |
                    #[trigger] evaluation_recorded(
                        before.actions_spec(),
                        after.actions_spec(),
                        id,
                        authority_for(before.guard_spec().state()),
                        before.guard_spec().state(),
                        context.now,
                        d,
                        i,
                        rep,
                    ))
                &&& r matches Err(e) ==> e matches HttpRouteError::Daemon(DaemonError::Actions(_))
            },
        },
    }
}

/// Answers a classified route from the core, with the query's parameters and
/// the decoded body.
fn answer_route(
    core: &mut DaemonCore,
    context: &HttpContext,
    selected: Route,
    query: &QueryParameters,
    body: Result<CreateActionDto, String>,
) -> (r: Result<HttpBody, HttpRouteError>)
    requires
        old(core).well_formed(),
    ensures
        final(core).well_formed(),
        route_answered(*old(core), *final(core), *context, selected, query.pairs_view(), body, r),
{
    proof {
        reveal_strlit("ok");
        reveal_strlit("API route was not found");
        reveal_strlit("only GET and the documented safe POST action routes are supported");
        reveal_strlit("invalid JSON body: ");
    }
    match selected {
        Route::Status => {
            return Ok(
                HttpBody::Status(
                    DaemonStatusDto {
                        version: context.version.clone(),
                        observations_ingested: core.observations_ingested(),
                        incidents_open: core.incident_count(),
                        memory_nodes_known: core.memory().node_count(),
                        socket_path: context.socket_path.clone(),
                    },
                ),
            );
        },
        Route::Health => {
            let status = core.guard_status();
            return Ok(
                HttpBody::Health(
                    HealthDto {
                        daemon: String::from_str("ok"),
                        memory: crate::daemon::dispatch::health_text(context.memory_reachable),
                        guard: status.trust_state,
                    },
                ),
            );
        },
        Route::Incidents => {
            return Ok(HttpBody::Incidents(core.list_incidents()));
        },
        Route::MemoryNodes => {
            let kind: Option<&str> = match query.get("kind") {
                Some(k) => Some(k.as_str()),
                None => None,
            };
            match core.memory_nodes(kind) {
                Ok(nodes) => {
                    return Ok(HttpBody::MemoryNodes(nodes));
                },
                Err(e) => {
                    return Err(HttpRouteError::Daemon(e));
                },
            }
        },
        Route::MemoryRecent => {
            let limit = limit_parameter(query, 20, 500)?;
            return Ok(HttpBody::MemoryNodes(core.memory_recent(limit)));
        },
        Route::MemoryNeighbours => {
            let node_id = required_query(query, "node_id")?;
            let neighbours = core.memory_neighbours(node_id);
            return Ok(HttpBody::MemoryNeighbours { node_id: String::from_str(node_id), neighbours });
        },
        Route::MemoryPath => {
            let source = required_query(query, "source")?;
            let target = required_query(query, "target")?;
            let path = match core.memory_path(source, target) {
                Some(p) => {
                    let ghost gp = p;
                    let d = path_dto(p);
                    proof {
                        let q = choose|q: PathQuery|
                            #[trigger] default_query(q) && core.memory_spec().is_found_path(
                                q,
                                source@,
                                target@,
                                gp,
                            );
                        assert(default_query(q) && core.memory_spec().is_found_path(q, source@, target@, gp)
                            && path_reports(d, gp));
                    }
                    Some(d)
                },
                None => None,
            };
            let r = Ok(HttpBody::MemoryPath(path));
            assert(match (required_value(query.pairs_view(), "source"@), required_value(query.pairs_view(), "target"@)) {
                (Ok(a), Ok(b)) => a == source@ && b == target@,
                _ => false,
            });
            return r;
        },
        Route::Guard => {
            return Ok(HttpBody::GuardStatus(core.guard_status()));
        },
        Route::GuardFindings => {
            return Ok(HttpBody::GuardFindings(core.guard_findings()));
        },
        Route::TelemetryStatus => {
            return Ok(HttpBody::TelemetryStatus(core.telemetry_status()));
        },
        Route::TelemetryRecent => {
            let limit = limit_parameter(query, 100, 512)?;
            return Ok(HttpBody::TelemetryRecent(core.telemetry_recent(limit)));
        },
        Route::Actions => {
            return Ok(HttpBody::Actions(core.list_actions()));
        },
        Route::CreateAction => {
            let request = match body {
                Ok(request) => request,
                Err(error) => {
                    return Err(
                        HttpRouteError::BadRequest(
                            String::from_str("invalid JSON body: ").concat(error.as_str()),
                        ),
                    );
                },
            };
            match core.create_action(
                request.incident_id.as_str(),
                request.action.as_str(),
                request.target.as_str(),
                context.now,
            ) {
                Ok(detail) => {
                    return Ok(HttpBody::Created(detail));
                },
                Err(e) => {
                    return Err(HttpRouteError::Daemon(e));
                },
            }
        },
        Route::Incident(encoded) => {
            let id = percent_decode(encoded.as_str())?;
            match core.incident_detail(id.as_str()) {
                Some(detail) => {
                    return Ok(HttpBody::Incident(detail));
                },
                None => {
                    proof {
                        reveal_strlit("incident ");
                        reveal_strlit(" was not found");
                    }
                    return Err(
                        HttpRouteError::NotFound(
                            String::from_str("incident ").concat(id.as_str()).concat(" was not found"),
                        ),
                    );
                },
            }
        },
        Route::Action(encoded) => {
            let id = percent_decode(encoded.as_str())?;
            match core.action_detail(id.as_str()) {
                Some(detail) => {
                    return Ok(HttpBody::Action(detail));
                },
                None => {
                    proof {
                        reveal_strlit("action proposal ");
                        reveal_strlit(" was not found");
                    }
                    return Err(
                        HttpRouteError::NotFound(
                            String::from_str("action proposal ").concat(id.as_str()).concat(
                                " was not found",
                            ),
                        ),
                    );
                },
            }
        },
        Route::EvaluateAction(encoded) => {
            let id = percent_decode(encoded.as_str())?;
            match core.evaluate_action(id.as_str(), context.now) {
                Ok(detail) => {
                    return Ok(HttpBody::Action(detail));
                },
                Err(e) => {
                    return Err(HttpRouteError::Daemon(e));
                },
            }
        },
        Route::NotFound => {
            return Err(HttpRouteError::NotFound(String::from_str("API route was not found")));
        },
        Route::MethodNotAllowed => {
            return Err(
                HttpRouteError::MethodNotAllowed(
                    String::from_str("only GET and the documented safe POST action routes are supported"),
                ),
            );
        },
    }
}

/// Routes a request to the core: the target's query is parsed first, then
/// the method and path select the route. The body of a proposal creation is
/// given decoded, or with the decoder's complaint.
pub fn route(
    core: &mut DaemonCore,
    context: &HttpContext,
    method: &str,
    target: &str,
    body: Result<CreateActionDto, String>,
) -> (r: Result<HttpBody, HttpRouteError>)
    requires
        old(core).well_formed(),
    ensures
        final(core).well_formed(),
        query_pairs(crate::text::utf8_of(split_once_spec(target@, '?').1)) is Err ==> (r matches Err(
            HttpRouteError::BadRequest(_),
        ) && *final(core) == *old(core)),
        query_pairs(crate::text::utf8_of(split_once_spec(target@, '?').1)) matches Ok(pairs) ==> exists|
            route: Route,
        |
            #[trigger] route_of(method@, split_once_spec(target@, '?').0, route) && route_answered(
                *old(core),
                *final(core),
                *context,
                route,
                pairs,
                body,
                r,
            ),
        !(method@ == "POST"@) ==> *final(core) == *old(core),
{
    let (path, query_text) = split_once(target, '?');
    let query = parse_query(query_text.as_str())?;
    let selected = classify(method, path.as_str());
    proof {
        reveal_strlit("ok");
        reveal_strlit("API route was not found");
        reveal_strlit("only GET and the documented safe POST action routes are supported");
        reveal_strlit("invalid JSON body: ");
        reveal_strlit("GET");
        reveal_strlit("POST");
        assert(route_of(method@, split_once_spec(target@, '?').0, selected));
    }
    answer_route(core, context, selected, &query, body)
}


/// A character folded to ASCII lower case, as a code point.
pub open spec fn ascii_fold(c: char) -> u32 {
    if 65 <= (c as u32) <= 90 {
        (c as u32 + 32) as u32
    } else {
        c as u32
    }
}

/// Whether two texts are equal once ASCII letters are folded to lower case
/// (`eq_ignore_ascii_case`).
pub open spec fn eq_ignore_ascii_case_spec(a: Seq<char>, b: Seq<char>) -> bool {
    a.len() == b.len() && forall|i: int| 0 <= i < a.len() ==> ascii_fold(#[trigger] a[i]) == ascii_fold(b[i])
}

pub fn eq_ignore_ascii_case(a: &str, b: &str) -> (r: bool)
    ensures
        r == eq_ignore_ascii_case_spec(a@, b@),
{
    let n = a.unicode_len();
    if n != b.unicode_len() {
        return false;
    }
    let mut i: usize = 0;
    while i < n
        invariant
            n == a@.len() == b@.len(),
            i <= n,
            forall|k: int| 0 <= k < i ==> ascii_fold(#[trigger] a@[k]) == ascii_fold(b@[k]),
        decreases n - i,
    {
        let x = a.get_char(i) as u32;
        let y = b.get_char(i) as u32;
        let fx = if 65 <= x && x <= 90 {
            x + 32
        } else {
            x
        };
        let fy = if 65 <= y && y <= 90 {
            y + 32
        } else {
            y
        };
        if fx != fy {
            return false;
        }
        i = i + 1;
    }
    true
}

/// A text without its leading whitespace.
pub open spec fn trim_start_ws(s: Seq<char>) -> Seq<char>
    decreases s.len(),
{
    if s.len() > 0 && unicode_whitespace(s[0]) {
        trim_start_ws(s.skip(1))
    } else {
        s
    }
}

/// A text without its trailing whitespace.
pub open spec fn trim_end_ws(s: Seq<char>) -> Seq<char>
    decreases s.len(),
{
    if s.len() > 0 && unicode_whitespace(s.last()) {
        trim_end_ws(s.drop_last())
    } else {
        s
    }
}

/// A text without its leading and trailing whitespace (`trim`).
pub open spec fn trim_spec(s: Seq<char>) -> Seq<char> {
    trim_end_ws(trim_start_ws(s))
}

pub fn trim(s: &str) -> (r: String)
    ensures
        r@ == trim_spec(s@),
{
    let n = s.unicode_len();
    let mut a: usize = 0;
    assert(s@.skip(0) =~= s@);
    while a < n && is_whitespace(s.get_char(a))
        invariant
            n == s@.len(),
            a <= n,
            trim_start_ws(s@) == trim_start_ws(s@.skip(a as int)),
        decreases n - a,
    {
        assert(s@.skip(a as int).skip(1) =~= s@.skip(a + 1));
        a = a + 1;
    }
    let ghost rest = s@.skip(a as int);
    assert(trim_start_ws(rest) == rest);
    let mut b: usize = n;
    assert(rest.subrange(0, (b - a) as int) =~= rest);
    while b > a && is_whitespace(s.get_char(b - 1))
        invariant
            n == s@.len(),
            a <= b <= n,
            rest == s@.skip(a as int),
            trim_end_ws(rest) == trim_end_ws(rest.subrange(0, (b - a) as int)),
        decreases b,
    {
        assert(rest.subrange(0, (b - a) as int).drop_last() =~= rest.subrange(0, (b - 1 - a) as int));
        b = b - 1;
    }
    assert(rest.subrange(0, (b - a) as int) =~= s@.subrange(a as int, b as int));
    String::from_str(s.substring_char(a, b))
}

/// What a request's head says besides its request line: the `Origin` it came
/// from and the length of its body.
pub struct RequestHead {
    pub origin: Option<String>,
    pub content_length: usize,
}

/// The head before any header line is read.
pub fn empty_head() -> (r: RequestHead)
    ensures
        r.origin is None,
        r.content_length == 0,
{
    RequestHead { origin: None, content_length: 0 }
}

/// Whether a line read from the head ends it: the empty line, or nothing
/// left to read.
pub fn is_head_end(line: &str) -> (r: bool)
    ensures
        r == (line@ == "\r\n"@ || line@.len() == 0),
{
    str_eq(line, "\r\n") || line.unicode_len() == 0
}

/// What a header line does to the head: a line `name:value` whose name is
/// `origin` in any ASCII case sets the origin to the trimmed value, one whose
/// name is `content-length` sets the body length to the trimmed value read
/// as a number, or 0 where it is none; any other line changes nothing.
pub open spec fn header_applied(
    origin: Option<Seq<char>>,
    content_length: usize,
    line: Seq<char>,
    new_origin: Option<Seq<char>>,
    new_length: usize,
) -> bool {
    let i = first_char_index(line, ':');
    let name = line.take(i);
    let value = trim_spec(line.skip(i + 1));
    if i >= line.len() {
        new_origin == origin && new_length == content_length
    } else if eq_ignore_ascii_case_spec(name, "origin"@) {
        new_origin == Some(value) && new_length == content_length
    } else if eq_ignore_ascii_case_spec(name, "content-length"@) {
        new_origin == origin && new_length == match unsigned_value(value) {
            Some(v) => if v <= usize::MAX {
                v as usize
            } else {
                0usize
            },
            None => 0usize,
        }
    } else {
        new_origin == origin && new_length == content_length
    }
}

impl RequestHead {
    /// Applies a header line to the head.
    pub fn read_header(&mut self, line: &str)
        ensures
            header_applied(
                match old(self).origin {
                    Some(o) => Some(o@),
                    None => None,
                },
                old(self).content_length,
                line@,
                match final(self).origin {
                    Some(o) => Some(o@),
                    None => None,
                },
                final(self).content_length,
            ),
    {
        let n = line.unicode_len();
        let i = match find_char(line, ':') {
            Some(i) => i,
            None => {
                return;
            },
        };
        let name = line.substring_char(0, i);
        let value = trim(line.substring_char(i + 1, n));
        proof {
            reveal_strlit("origin");
            reveal_strlit("content-length");
            assert(name@ =~= line@.take(i as int));
            assert(line@.subrange(i + 1, n as int) =~= line@.skip(i + 1));
        }
        if eq_ignore_ascii_case(name, "origin") {
            self.origin = Some(value);
        } else if eq_ignore_ascii_case(name, "content-length") {
            self.content_length = match parse_usize(value.as_str()) {
                Some(v) => v,
                None => 0,
            };
        }
    }
}

/// The method and target of a request line: its first two
/// whitespace-separated fields, each empty where missing.
pub fn request_parts(request_line: &str) -> (r: (String, String))
    ensures
        r.0@ == if fields_from(request_line@, 0).len() > 0 {
            fields_from(request_line@, 0)[0]
        } else {
            Seq::<char>::empty()
        },
        r.1@ == if fields_from(request_line@, 0).len() > 1 {
            fields_from(request_line@, 0)[1]
        } else {
            Seq::<char>::empty()
        },
{
    let fields = whitespace_fields(request_line);
    proof {
        assert(fields@.len() == fields_from(request_line@, 0).len());
    }
    let method = if fields.len() > 0 {
        assert(fields@[0]@ == fields_from(request_line@, 0)[0]);
        fields[0].clone()
    } else {
        String::new()
    };
    let target = if fields.len() > 1 {
        assert(fields@[1]@ == fields_from(request_line@, 0)[1]);
        fields[1].clone()
    } else {
        String::new()
    };
    (method, target)
}

/// The status and message a refused request is answered with: 404, 400 and
/// 405 with the route's message, and 500 with the daemon error's debug form.
pub open spec fn error_answer(e: HttpRouteError) -> (u16, Seq<char>) {
    match e {
        HttpRouteError::NotFound(m) => (404, m@),
        HttpRouteError::BadRequest(m) => (400, m@),
        HttpRouteError::MethodNotAllowed(m) => (405, m@),
        HttpRouteError::Daemon(d) => (500, d.describe_spec()),
    }
}

/// The status and message of a refused request.
pub fn error_response(e: &HttpRouteError) -> (r: (u16, String))
    ensures
        r.0 == error_answer(*e).0,
        !(e matches HttpRouteError::Daemon(
            DaemonError::Memory(crate::memory::rows::StorageError::InvalidReinforcementEvidenceJson(_)),
        )) ==> r.1@ == error_answer(*e).1,
{
    match e {
        HttpRouteError::NotFound(m) => (404, m.clone()),
        HttpRouteError::BadRequest(m) => (400, m.clone()),
        HttpRouteError::MethodNotAllowed(m) => (405, m.clone()),
        HttpRouteError::Daemon(d) => (500, d.describe()),
    }
}

} // verus!
