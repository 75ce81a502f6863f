//! Text primitives shared by the library: equality of string slices, the
//! byte-wise order in which identifiers are kept and reported, and the
//! rendering of numbers and padded columns.
use vstd::prelude::*;
use vstd::utf8::*;
use vstd::string::StringExecFns;

verus! {

broadcast use vstd::utf8::encode_utf8_decode_utf8;

/// The UTF-8 bytes of a character sequence.
pub open spec fn utf8_of(s: Seq<char>) -> Seq<u8> {
    encode_utf8(s)
}

/// Two character sequences are equal exactly when their UTF-8 encodings are.
pub proof fn lemma_utf8_injective(a: Seq<char>, b: Seq<char>)
    ensures
        (utf8_of(a) == utf8_of(b)) <==> (a == b),
{
    if utf8_of(a) == utf8_of(b) {
        assert(decode_utf8(encode_utf8(a)) == a);
        assert(decode_utf8(encode_utf8(b)) == b);
    }
}

/// Strict lexicographic order on byte strings (the order of SQLite's BINARY
/// collation and of `str`'s `Ord`).
pub open spec fn bytes_lt(a: Seq<u8>, b: Seq<u8>) -> bool
    decreases a.len(),
{
    if a.len() == 0 {
        b.len() > 0
    } else if b.len() == 0 {
        false
    } else if a[0] < b[0] {
        true
    } else if a[0] > b[0] {
        false
    } else {
        bytes_lt(a.drop_first(), b.drop_first())
    }
}

/// Strict order on identifiers: byte-wise order of their UTF-8 encodings.
pub open spec fn id_lt(a: Seq<char>, b: Seq<char>) -> bool {
    bytes_lt(utf8_of(a), utf8_of(b))
}

pub proof fn lemma_bytes_lt_irreflexive(a: Seq<u8>)
    ensures
        !bytes_lt(a, a),
    decreases a.len(),
{
    if a.len() > 0 {
        lemma_bytes_lt_irreflexive(a.drop_first());
    }
}

pub proof fn lemma_bytes_lt_transitive(a: Seq<u8>, b: Seq<u8>, c: Seq<u8>)
    requires
        bytes_lt(a, b),
        bytes_lt(b, c),
    ensures
        bytes_lt(a, c),
    decreases a.len(),
{
    if a.len() > 0 && b.len() > 0 && c.len() > 0 && a[0] == b[0] && b[0] == c[0] {
        lemma_bytes_lt_transitive(a.drop_first(), b.drop_first(), c.drop_first());
    }
}

pub proof fn lemma_bytes_lt_asymmetric(a: Seq<u8>, b: Seq<u8>)
    requires
        bytes_lt(a, b),
    ensures
        !bytes_lt(b, a),
    decreases a.len(),
{
    if a.len() > 0 && b.len() > 0 && a[0] == b[0] {
        lemma_bytes_lt_asymmetric(a.drop_first(), b.drop_first());
    }
}

pub proof fn lemma_bytes_lt_total(a: Seq<u8>, b: Seq<u8>)
    ensures
        a == b || bytes_lt(a, b) || bytes_lt(b, a),
    decreases a.len(),
{
    if a.len() > 0 && b.len() > 0 && a[0] == b[0] {
        lemma_bytes_lt_total(a.drop_first(), b.drop_first());
        if a.drop_first() == b.drop_first() {
            assert(a =~= seq![a[0]] + a.drop_first());
            assert(b =~= seq![b[0]] + b.drop_first());
        }
    } else if a.len() == 0 && b.len() == 0 {
        assert(a =~= b);
    }
}

pub proof fn lemma_id_lt_irreflexive(a: Seq<char>)
    ensures
        !id_lt(a, a),
{
    lemma_bytes_lt_irreflexive(utf8_of(a));
}

pub proof fn lemma_id_lt_transitive(a: Seq<char>, b: Seq<char>, c: Seq<char>)
    requires
        id_lt(a, b),
        id_lt(b, c),
    ensures
        id_lt(a, c),
{
    lemma_bytes_lt_transitive(utf8_of(a), utf8_of(b), utf8_of(c));
}

pub proof fn lemma_id_lt_asymmetric(a: Seq<char>, b: Seq<char>)
    requires
        id_lt(a, b),
    ensures
        !id_lt(b, a),
{
    lemma_bytes_lt_asymmetric(utf8_of(a), utf8_of(b));
}

pub proof fn lemma_id_lt_total(a: Seq<char>, b: Seq<char>)
    ensures
        a == b || id_lt(a, b) || id_lt(b, a),
{
    lemma_bytes_lt_total(utf8_of(a), utf8_of(b));
    lemma_utf8_injective(a, b);
}

/// Byte-wise comparison of two byte slices from position `start` on.
fn bytes_lt_from(a: &[u8], b: &[u8], start: usize) -> (r: bool)
    requires
        start <= a@.len(),
        start <= b@.len(),
    ensures
        r == bytes_lt(a@.skip(start as int), b@.skip(start as int)),
    decreases a@.len() - start,
{
    if start == a.len() {
        return start < b.len();
    }
    if start == b.len() {
        return false;
    }
    assert(a@.skip(start as int).drop_first() =~= a@.skip(start + 1));
    assert(b@.skip(start as int).drop_first() =~= b@.skip(start + 1));
    if a[start] < b[start] {
        true
    } else if a[start] > b[start] {
        false
    } else {
        bytes_lt_from(a, b, start + 1)
    }
}

/// Whether `a` orders strictly before `b` byte-wise.
pub fn str_lt(a: &str, b: &str) -> (r: bool)
    ensures
        r == id_lt(a@, b@),
{
    let x = a.as_bytes();
    let y = b.as_bytes();
    assert(x@.skip(0) =~= x@);
    assert(y@.skip(0) =~= y@);
    bytes_lt_from(x, y, 0)
}

/// Equality of two string slices.
pub fn str_eq(a: &str, b: &str) -> (r: bool)
    ensures
        r == (a@ == b@),
{
    let x = a.as_bytes();
    let y = b.as_bytes();
    proof {
        lemma_utf8_injective(a@, b@);
    }
    if x.len() != y.len() {
        return false;
    }
    let mut i: usize = 0;
    while i < x.len()
        invariant
            x@.len() == y@.len(),
            x@ == utf8_of(a@),
            y@ == utf8_of(b@),
            (utf8_of(a@) == utf8_of(b@)) <==> (a@ == b@),
            i <= x@.len(),
            forall|j: int| 0 <= j < i ==> x@[j] == y@[j],
        decreases x@.len() - i,
    {
        if x[i] != y[i] {
            return false;
        }
        i = i + 1;
    }
    assert(x@ =~= y@);
    true
}

/// The `{:?}` rendering of a string: the text in double quotes with its
/// special characters escaped.
pub uninterp spec fn debug_quoted_spec(s: Seq<char>) -> Seq<char>;

/// Calls `format!("{:?}", s)` on a string slice. The contract names the result
/// of std's `Debug` rendering of `str` without spelling out its escape rules.
#[verifier::external_body]
pub(crate) fn debug_quoted(s: &str) -> (r: String)
    ensures
        r@ == debug_quoted_spec(s@),
{
    format!("{:?}", s)
}

/// The decimal digit `d`.
pub open spec fn digit_char(d: nat) -> char {
    if d == 0 {
        '0'
    } else if d == 1 {
        '1'
    } else if d == 2 {
        '2'
    } else if d == 3 {
        '3'
    } else if d == 4 {
        '4'
    } else if d == 5 {
        '5'
    } else if d == 6 {
        '6'
    } else if d == 7 {
        '7'
    } else if d == 8 {
        '8'
    } else {
        '9'
    }
}

/// The decimal rendering of `n`, without leading zeros.
pub open spec fn decimal_spec(n: nat) -> Seq<char>
    decreases n,
{
    if n < 10 {
        seq![digit_char(n)]
    } else {
        decimal_spec(n / 10).push(digit_char(n % 10))
    }
}

/// `s` preceded by as many copies of `c` as make it `width` long.
pub open spec fn pad_left(s: Seq<char>, c: char, width: nat) -> Seq<char> {
    if s.len() < width {
        Seq::new((width - s.len()) as nat, |i: int| c) + s
    } else {
        s
    }
}

/// `s` followed by as many spaces as make it `width` long (`{:<width}`).
pub open spec fn pad_right(s: Seq<char>, width: nat) -> Seq<char> {
    if s.len() < width {
        s + Seq::new((width - s.len()) as nat, |i: int| ' ')
    } else {
        s
    }
}

/// The parts joined with `sep` between each two.
pub open spec fn join_spec(parts: Seq<Seq<char>>, sep: Seq<char>) -> Seq<char>
    decreases parts.len(),
{
    if parts.len() == 0 {
        Seq::empty()
    } else if parts.len() == 1 {
        parts[0]
    } else {
        join_spec(parts.drop_last(), sep) + sep + parts.last()
    }
}

fn digit_str(d: u64) -> (r: &'static str)
    requires
        d < 10,
    ensures
        r@ == seq![digit_char(d as nat)],
{
    proof {
        reveal_strlit("0");
        reveal_strlit("1");
        reveal_strlit("2");
        reveal_strlit("3");
        reveal_strlit("4");
        reveal_strlit("5");
        reveal_strlit("6");
        reveal_strlit("7");
        reveal_strlit("8");
        reveal_strlit("9");
    }
    if d == 0 {
        "0"
    } else if d == 1 {
        "1"
    } else if d == 2 {
        "2"
    } else if d == 3 {
        "3"
    } else if d == 4 {
        "4"
    } else if d == 5 {
        "5"
    } else if d == 6 {
        "6"
    } else if d == 7 {
        "7"
    } else if d == 8 {
        "8"
    } else {
        "9"
    }
}

/// The decimal rendering of `n` (`{}`).
pub fn decimal(n: u64) -> (r: String)
    ensures
        r@ == decimal_spec(n as nat),
    decreases n,
{
    if n < 10 {
        String::from_str(digit_str(n))
    } else {
        let mut s = decimal(n / 10);
        s.append(digit_str(n % 10));
        s
    }
}

/// `n` in decimal, zero-padded on the left to `width` digits (`{:0width}`).
pub fn zero_padded(n: u64, width: usize) -> (r: String)
    ensures
        r@ == pad_left(decimal_spec(n as nat), '0', width as nat),
{
    let digits = decimal(n);
    let len = digits.unicode_len();
    if len >= width {
        return digits;
    }
    let mut s = String::new();
    let mut i: usize = len;
    while i < width
        invariant
            len <= i <= width,
            len == decimal_spec(n as nat).len(),
            s@ == Seq::new((i - len) as nat, |k: int| '0'),
        decreases width - i,
    {
        proof {
            reveal_strlit("0");
        }
        s.append("0");
        i = i + 1;
        assert(s@ =~= Seq::new((i - len) as nat, |k: int| '0'));
    }
    s.append(digits.as_str());
    s
}

/// `s` left-aligned in a column of `width` characters (`{:<width}`).
pub fn padded(s: &str, width: usize) -> (r: String)
    ensures
        r@ == pad_right(s@, width as nat),
{
    let mut out = String::from_str(s);
    let len = s.unicode_len();
    let mut i: usize = len;
    while i < width
        invariant
            len <= i,
            len == s@.len(),
            i <= width || i == len,
            out@ == s@ + Seq::new((i - len) as nat, |k: int| ' '),
        decreases width - i,
    {
        proof {
            reveal_strlit(" ");
        }
        out.append(" ");
        i = i + 1;
        assert(out@ =~= s@ + Seq::new((i - len) as nat, |k: int| ' '));
    }
    if len >= width {
        assert(out@ =~= s@);
    }
    out
}

/// The strings joined with `sep` between each two.
pub fn join(parts: &Vec<String>, sep: &str) -> (r: String)
    ensures
        r@ == join_spec(parts@.map_values(|p: String| p@), sep@),
{
    let ghost views = parts@.map_values(|p: String| p@);
    let mut out = String::new();
    let mut i: usize = 0;
    while i < parts.len()
        invariant
            i <= parts@.len(),
            views == parts@.map_values(|p: String| p@),
            out@ == join_spec(views.take(i as int), sep@),
        decreases parts@.len() - i,
    {
        if i > 0 {
            out.append(sep);
        }
        out.append(parts[i].as_str());
        proof {
            let t = views.take(i + 1);
            assert(t.drop_last() =~= views.take(i as int));
            if i == 0 {
                assert(out@ =~= t[0]);
            }
        }
        i = i + 1;
    }
    assert(views.take(parts@.len() as int) =~= views);
    out
}

/// Whether `c` is an ASCII decimal digit.
pub open spec fn is_digit(c: char) -> bool {
    '0' <= c && c <= '9'
}

/// The value of a sequence of decimal digits.
pub open spec fn digits_value(s: Seq<char>) -> nat
    decreases s.len(),
{
    if s.len() == 0 {
        0
    } else {
        digits_value(s.drop_last()) * 10 + ((s.last() as int) - ('0' as int)) as nat
    }
}

/// The number a text denotes as `from_str` of an unsigned integer reads it:
/// an optional `+` and at least one decimal digit.
pub open spec fn unsigned_value(s: Seq<char>) -> Option<nat> {
    if unsigned_body(s).len() > 0 && all_digits(unsigned_body(s)) {
        Some(digits_value(unsigned_body(s)))
    } else {
        None
    }
}

/// A text without its leading `+`, if any.
pub open spec fn unsigned_body(s: Seq<char>) -> Seq<char> {
    if s.len() > 0 && s[0] == '+' {
        s.skip(1)
    } else {
        s
    }
}

/// Whether every character of `s` is a decimal digit.
pub open spec fn all_digits(s: Seq<char>) -> bool {
    forall|i: int| 0 <= i < s.len() ==> is_digit(#[trigger] s[i])
}

/// Parses an unsigned integer as `str::parse::<u64>` does: `None` for a
/// text that is no number or a number above `u64::MAX`.
pub fn parse_u64(s: &str) -> (r: Option<u64>)
    ensures
        match unsigned_value(s@) {
            Some(v) => if v <= u64::MAX {
                r == Some(v as u64)
            } else {
                r is None
            },
            None => r is None,
        },
{
    let n = s.unicode_len();
    let mut i: usize = 0;
    if n > 0 && s.get_char(0) == '+' {
        i = 1;
    }
    let ghost body = unsigned_body(s@);
    let start = i;
    if start >= n {
        return None;
    }
    let mut value: u64 = 0;
    let mut overflow = false;
    while i < n
        invariant
            n == s@.len(),
            start <= i <= n,
            start < n,
            body == s@.skip(start as int),
            body == unsigned_body(s@),
            forall|k: int| 0 <= k < i - start ==> is_digit(#[trigger] body[k]),
            !overflow ==> value == digits_value(body.take(i - start)),
            overflow ==> digits_value(body.take(i - start)) > u64::MAX,
        decreases n - i,
    {
        let c = s.get_char(i);
        if !('0' <= c && c <= '9') {
            proof {
                assert(!is_digit(body[i - start]));
                assert(body.len() == n - start);
                assert(!all_digits(body));
            }
            return None;
        }
        let d = ((c as u32) - ('0' as u32)) as u64;
        proof {
            let t = body.take(i - start + 1);
            assert(t.drop_last() =~= body.take(i - start));
            assert(t.last() == c);
            assert(digits_value(t) == digits_value(body.take(i - start)) * 10 + d);
        }
        if !overflow {
            match value.checked_mul(10) {
                Some(m) => match m.checked_add(d) {
                    Some(v) => {
                        value = v;
                    },
                    None => {
                        overflow = true;
                    },
                },
                None => {
                    overflow = true;
                    proof {
                        assert(digits_value(body.take(i - start)) * 10 + d >= digits_value(body.take(i - start)) * 10);
                    }
                },
            }
        } else {
            proof {
                assert(digits_value(body.take(i - start)) * 10 + d >= digits_value(body.take(i - start))) by (nonlinear_arith)
                    requires
                        digits_value(body.take(i - start)) >= 0,
                        d >= 0,
                ;
            }
        }
        i = i + 1;
    }
    proof {
        assert(body.take(body.len() as int) =~= body);
        assert(body.len() == n - start);
    }
    if overflow {
        None
    } else {
        Some(value)
    }
}

/// Parses an unsigned integer as `str::parse::<usize>` does: `None` for a
/// text that is no number or a number above `usize::MAX`.
pub fn parse_usize(s: &str) -> (r: Option<usize>)
    ensures
        match unsigned_value(s@) {
            Some(v) => if v <= usize::MAX {
                r == Some(v as usize)
            } else {
                r is None
            },
            None => r is None,
        },
{
    match parse_u64(s) {
        Some(v) => if v <= usize::MAX as u64 {
            Some(v as usize)
        } else {
            None
        },
        None => None,
    }
}

/// Parses an unsigned integer as `str::parse::<u32>` does: `None` for a
/// text that is no number or a number above `u32::MAX`.
pub fn parse_u32(s: &str) -> (r: Option<u32>)
    ensures
        match unsigned_value(s@) {
            Some(v) => if v <= u32::MAX {
                r == Some(v as u32)
            } else {
                r is None
            },
            None => r is None,
        },
{
    match parse_u64(s) {
        Some(v) => if v <= u32::MAX as u64 {
            Some(v as u32)
        } else {
            None
        },
        None => None,
    }
}

/// Whether `c` has the Unicode `White_Space` property, as
/// `char::is_whitespace` decides.
pub open spec fn unicode_whitespace(c: char) -> bool {
    let v = c as u32;
    ||| 0x09 <= v <= 0x0d
    ||| v == 0x20
    ||| v == 0x85
    ||| v == 0xa0
    ||| v == 0x1680
    ||| 0x2000 <= v <= 0x200a
    ||| v == 0x2028
    ||| v == 0x2029
    ||| v == 0x202f
    ||| v == 0x205f
    ||| v == 0x3000
}

pub fn is_whitespace(c: char) -> (r: bool)
    ensures
        r == unicode_whitespace(c),
{
    let v = c as u32;
    (0x09 <= v && v <= 0x0d) || v == 0x20 || v == 0x85 || v == 0xa0 || v == 0x1680 || (0x2000 <= v
        && v <= 0x200a) || v == 0x2028 || v == 0x2029 || v == 0x202f || v == 0x205f || v == 0x3000
}

/// Where the run of non-whitespace characters that starts at `i` ends.
pub open spec fn token_end(s: Seq<char>, i: int) -> int
    decreases s.len() - i,
{
    if i < 0 || i >= s.len() || unicode_whitespace(s[i]) {
        i
    } else {
        token_end(s, i + 1)
    }
}

pub proof fn lemma_token_end(s: Seq<char>, i: int)
    requires
        0 <= i <= s.len(),
    ensures
        i <= token_end(s, i) <= s.len(),
        i < s.len() && !unicode_whitespace(s[i]) ==> token_end(s, i) > i,
    decreases s.len() - i,
{
    if i < s.len() && !unicode_whitespace(s[i]) {
        lemma_token_end(s, i + 1);
    }
}

/// The whitespace-separated fields of `s` from position `i` on, as
/// `split_whitespace` yields them.
pub open spec fn fields_from(s: Seq<char>, i: int) -> Seq<Seq<char>>
    decreases s.len() - i,
{
    if i < 0 || i >= s.len() {
        Seq::empty()
    } else if unicode_whitespace(s[i]) {
        fields_from(s, i + 1)
    } else {
        let e = token_end(s, i);
        proof {
            lemma_token_end(s, i);
        }
        seq![s.subrange(i, e)] + fields_from(s, e)
    }
}

/// The whitespace-separated fields of a text.
pub fn whitespace_fields(s: &str) -> (r: Vec<String>)
    ensures
        r@.map_values(|x: String| x@) == fields_from(s@, 0),
{
    let n = s.unicode_len();
    let mut out: Vec<String> = Vec::new();
    let mut i: usize = 0;
    while i < n
        invariant
            n == s@.len(),
            i <= n,
            fields_from(s@, 0) == out@.map_values(|x: String| x@) + fields_from(s@, i as int),
        decreases n - i,
    {
        if is_whitespace(s.get_char(i)) {
            i = i + 1;
        } else {
            let start = i;
            while i < n && !is_whitespace(s.get_char(i))
                invariant
                    n == s@.len(),
                    start <= i <= n,
                    token_end(s@, start as int) == token_end(s@, i as int),
                decreases n - i,
            {
                i = i + 1;
            }
            proof {
                lemma_token_end(s@, start as int);
            }
            let ghost before = out@.map_values(|x: String| x@);
            out.push(String::from_str(s.substring_char(start, i)));
            proof {
                assert(out@.map_values(|x: String| x@) =~= before.push(s@.subrange(start as int, i as int)));
                assert(before + fields_from(s@, start as int) =~= out@.map_values(|x: String| x@)
                    + fields_from(s@, i as int));
            }
        }
    }
    assert(out@.map_values(|x: String| x@) + fields_from(s@, n as int) =~= out@.map_values(|x: String| x@));
    out
}

/// The position of the last `c` in `s`, if any.
pub open spec fn last_char_index(s: Seq<char>, c: char) -> Option<int>
    decreases s.len(),
{
    if s.len() == 0 {
        None
    } else if s.last() == c {
        Some(s.len() - 1)
    } else {
        last_char_index(s.drop_last(), c)
    }
}

/// The position of the last `c` in a text (`rfind`), counted in characters.
pub fn rfind_char(s: &str, c: char) -> (r: Option<usize>)
    ensures
        r is None <==> last_char_index(s@, c) is None,
        r matches Some(i) ==> last_char_index(s@, c) == Some(i as int) && i < s@.len(),
{
    let mut i: usize = s.unicode_len();
    assert(s@.take(i as int) =~= s@);
    while i > 0
        invariant
            i <= s@.len(),
            last_char_index(s@, c) == last_char_index(s@.take(i as int), c),
        decreases i,
    {
        proof {
            let t = s@.take(i as int);
            assert(t.last() == s@[i - 1]);
            assert(t.drop_last() =~= s@.take(i - 1));
        }
        if s.get_char(i - 1) == c {
            return Some(i - 1);
        }
        i = i - 1;
    }
    None
}

/// The position of the first `c` in a text (`find`), counted in
/// characters; `None` when there is none.
pub fn find_char(s: &str, c: char) -> (r: Option<usize>)
    ensures
        r is None <==> first_char_index(s@, c) >= s@.len(),
        r matches Some(i) ==> first_char_index(s@, c) == i as int && i < s@.len(),
{
    let n = s.unicode_len();
    let mut i: usize = 0;
    while i < n && s.get_char(i) != c
        invariant
            n == s@.len(),
            i <= n,
            forall|k: int| 0 <= k < i ==> s@[k] != c,
        decreases n - i,
    {
        i = i + 1;
    }
    proof {
        lemma_first_char_index(s@, c, i as int);
    }
    if i < n {
        Some(i)
    } else {
        None
    }
}

/// Whether `s` begins with `p`.
pub open spec fn starts_with_spec(s: Seq<char>, p: Seq<char>) -> bool {
    s.len() >= p.len() && s.take(p.len() as int) == p
}

/// Whether `s` ends with `p`.
pub open spec fn ends_with_spec(s: Seq<char>, p: Seq<char>) -> bool {
    s.len() >= p.len() && s.skip(s.len() - p.len()) == p
}

/// `s` with every leading repetition of `p` removed.
pub open spec fn trim_start_spec(s: Seq<char>, p: Seq<char>) -> Seq<char>
    decreases s.len(),
{
    if p.len() > 0 && starts_with_spec(s, p) {
        trim_start_spec(s.skip(p.len() as int), p)
    } else {
        s
    }
}

/// `s` with every trailing repetition of `p` removed.
pub open spec fn trim_end_spec(s: Seq<char>, p: Seq<char>) -> Seq<char>
    decreases s.len(),
{
    if p.len() > 0 && ends_with_spec(s, p) {
        trim_end_spec(s.take(s.len() - p.len()), p)
    } else {
        s
    }
}

pub fn starts_with(s: &str, p: &str) -> (r: bool)
    ensures
        r == starts_with_spec(s@, p@),
{
    let n = s.unicode_len();
    let m = p.unicode_len();
    if n < m {
        return false;
    }
    let head = s.substring_char(0, m);
    str_eq(head, p)
}

pub fn ends_with(s: &str, p: &str) -> (r: bool)
    ensures
        r == ends_with_spec(s@, p@),
{
    let n = s.unicode_len();
    let m = p.unicode_len();
    if n < m {
        return false;
    }
    let tail = s.substring_char(n - m, n);
    assert(s@.subrange((n - m) as int, n as int) =~= s@.skip(s@.len() - p@.len()));
    str_eq(tail, p)
}

/// `s` with every leading repetition of `p` removed (`trim_start_matches`).
pub fn trim_start_matches(s: &str, p: &str) -> (r: String)
    ensures
        r@ == trim_start_spec(s@, p@),
{
    let m = p.unicode_len();
    let mut rest = String::from_str(s);
    if m == 0 {
        return rest;
    }
    while starts_with(rest.as_str(), p)
        invariant
            m == p@.len(),
            m > 0,
            trim_start_spec(s@, p@) == trim_start_spec(rest@, p@),
        decreases rest@.len(),
    {
        let n = rest.unicode_len();
        let next = String::from_str(rest.as_str().substring_char(m, n));
        rest = next;
    }
    rest
}

/// `s` with every trailing repetition of `p` removed (`trim_end_matches`).
pub fn trim_end_matches(s: &str, p: &str) -> (r: String)
    ensures
        r@ == trim_end_spec(s@, p@),
{
    let m = p.unicode_len();
    let mut rest = String::from_str(s);
    if m == 0 {
        return rest;
    }
    while ends_with(rest.as_str(), p)
        invariant
            m == p@.len(),
            m > 0,
            trim_end_spec(s@, p@) == trim_end_spec(rest@, p@),
        decreases rest@.len(),
    {
        let n = rest.unicode_len();
        let next = String::from_str(rest.as_str().substring_char(0, n - m));
        assert(rest@.subrange(0, n - m) =~= rest@.take(rest@.len() - p@.len()));
        rest = next;
    }
    rest
}

/// The position of the first `c` in `s`, or its length when there is none.
pub open spec fn first_char_index(s: Seq<char>, c: char) -> int
    decreases s.len(),
{
    if s.len() == 0 {
        0
    } else if s[0] == c {
        0
    } else {
        1 + first_char_index(s.skip(1), c)
    }
}

/// The first position of a character lies within the text.
pub proof fn lemma_first_char_index_bound(s: Seq<char>, c: char)
    ensures
        0 <= first_char_index(s, c) <= s.len(),
    decreases s.len(),
{
    if s.len() > 0 && s[0] != c {
        lemma_first_char_index_bound(s.skip(1), c);
    }
}

pub proof fn lemma_first_char_index(s: Seq<char>, c: char, j: int)
    requires
        0 <= j <= s.len(),
        forall|k: int| 0 <= k < j ==> s[k] != c,
        j == s.len() || s[j] == c,
    ensures
        first_char_index(s, c) == j,
    decreases j,
{
    if j > 0 {
        assert forall|k: int| 0 <= k < j - 1 implies s.skip(1)[k] != c by {
            assert(s.skip(1)[k] == s[k + 1]);
        }
        if j < s.len() {
            assert(s.skip(1)[j - 1] == s[j]);
        }
        lemma_first_char_index(s.skip(1), c, j - 1);
    }
}

/// `s` split at its first `c` (`split_once`), or `s` and an empty text.
pub open spec fn split_once_spec(s: Seq<char>, c: char) -> (Seq<char>, Seq<char>) {
    let i = first_char_index(s, c);
    if i >= s.len() {
        (s, Seq::empty())
    } else {
        (s.take(i), s.skip(i + 1))
    }
}

pub fn split_once(s: &str, c: char) -> (r: (String, String))
    ensures
        r.0@ == split_once_spec(s@, c).0,
        r.1@ == split_once_spec(s@, c).1,
{
    let n = s.unicode_len();
    let mut i: usize = 0;
    while i < n && s.get_char(i) != c
        invariant
            n == s@.len(),
            i <= n,
            forall|k: int| 0 <= k < i ==> s@[k] != c,
        decreases n - i,
    {
        i = i + 1;
    }
    proof {
        lemma_first_char_index(s@, c, i as int);
    }
    if i >= n {
        (String::from_str(s), String::new())
    } else {
        assert(s@.subrange(0, i as int) =~= s@.take(i as int));
        assert(s@.subrange(i + 1, n as int) =~= s@.skip(i + 1));
        (String::from_str(s.substring_char(0, i)), String::from_str(s.substring_char(i + 1, n)))
    }
}

} // verus!
