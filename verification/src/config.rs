//! The daemon's settings as its environment gives them: a switch, a list of
//! watched paths and a polling interval.
use vstd::prelude::*;
use vstd::string::StringExecFns;
use crate::http::{eq_ignore_ascii_case, eq_ignore_ascii_case_spec, trim, trim_spec};
use crate::text::{
    first_char_index, lemma_first_char_index, lemma_first_char_index_bound, parse_u64, str_eq,
    unsigned_value,
};

verus! {

/// Whether a switch's value turns it on: `1`, `true`, `yes` or `on` in any
/// ASCII case, surrounding whitespace ignored.
pub open spec fn switch_on(value: Seq<char>) -> bool {
    let v = trim_spec(value);
    v == "1"@ || eq_ignore_ascii_case_spec(v, "true"@) || eq_ignore_ascii_case_spec(v, "yes"@)
        || eq_ignore_ascii_case_spec(v, "on"@)
}

pub fn is_switch_on(value: &str) -> (r: bool)
    ensures
        r == switch_on(value@),
{
    let v = trim(value);
    str_eq(v.as_str(), "1") || eq_ignore_ascii_case(v.as_str(), "true") || eq_ignore_ascii_case(
        v.as_str(),
        "yes",
    ) || eq_ignore_ascii_case(v.as_str(), "on")
}

/// The non-empty pieces of `s` between occurrences of `c`, in order (`split`
/// with empty pieces left out).
pub open spec fn nonempty_pieces(s: Seq<char>, c: char) -> Seq<Seq<char>>
    decreases s.len(),
{
    let i = first_char_index(s, c);
    if i >= s.len() {
        if s.len() > 0 {
            seq![s]
        } else {
            Seq::empty()
        }
    } else {
        proof {
            lemma_first_char_index_bound(s, c);
        }
        let rest = nonempty_pieces(s.skip(i + 1), c);
        if i > 0 {
            seq![s.take(i)] + rest
        } else {
            rest
        }
    }
}

/// The watched paths a colon-separated list names, empty entries skipped.
pub fn watch_paths(value: &str) -> (r: Vec<String>)
    ensures
        r@.map_values(|x: String| x@) == nonempty_pieces(value@, ':'),
{
    let n = value.unicode_len();
    let mut out: Vec<String> = Vec::new();
    let mut start: usize = 0;
    let mut i: usize = 0;
    assert(value@.skip(0) =~= value@);
    while i < n
        invariant
            n == value@.len(),
            start <= i <= n,
            forall|k: int| start <= k < i ==> value@[k] != ':',
            nonempty_pieces(value@, ':') == out@.map_values(|x: String| x@) + nonempty_pieces(
                value@.skip(start as int),
                ':',
            ),
        decreases n - i,
    {
        if value.get_char(i) == ':' {
            let ghost rest = value@.skip(start as int);
            let ghost before = out@.map_values(|x: String| x@);
            proof {
                assert forall|k: int| 0 <= k < i - start implies rest[k] != ':' by {
                    assert(rest[k] == value@[start + k]);
                }
                assert(rest[i - start] == value@[i as int]);
                lemma_first_char_index(rest, ':', i - start);
                assert(rest.take(i - start) =~= value@.subrange(start as int, i as int));
                assert(rest.skip(i - start + 1) =~= value@.skip(i + 1));
            }
            if i > start {
                out.push(String::from_str(value.substring_char(start, i)));
                proof {
                    assert(out@.map_values(|x: String| x@) =~= before.push(
                        value@.subrange(start as int, i as int),
                    ));
                    assert(before + (seq![value@.subrange(start as int, i as int)] + nonempty_pieces(
                        value@.skip(i + 1),
                        ':',
                    )) =~= out@.map_values(|x: String| x@) + nonempty_pieces(value@.skip(i + 1), ':'));
                }
            }
            start = i + 1;
        }
        i = i + 1;
    }
    let ghost rest = value@.skip(start as int);
    let ghost before = out@.map_values(|x: String| x@);
    proof {
        assert forall|k: int| 0 <= k < rest.len() implies rest[k] != ':' by {
            assert(rest[k] == value@[start + k]);
        }
        lemma_first_char_index(rest, ':', rest.len() as int);
        assert(rest =~= value@.subrange(start as int, n as int));
    }
    if n > start {
        out.push(String::from_str(value.substring_char(start, n)));
        proof {
            assert(out@.map_values(|x: String| x@) =~= before + seq![rest]);
        }
    } else {
        assert(before + nonempty_pieces(rest, ':') =~= before);
    }
    out
}

/// The polling interval a value asks for, in seconds: a number, at least 1;
/// `None` where the value is no number.
pub fn interval_seconds(value: &str) -> (r: Option<u64>)
    ensures
        match unsigned_value(value@) {
            Some(v) => if v <= u64::MAX {
                r == Some(if v >= 1 { v as u64 } else { 1u64 })
            } else {
                r is None
            },
            None => r is None,
        },
{
    match parse_u64(value) {
        Some(v) => Some(if v >= 1 { v } else { 1 }),
        None => None,
    }
}

} // verus!
