//! Character-level JSON building blocks.
//!
//! The wire format of the API is JSON; this module holds the pieces the
//! request serializer and the response decoder share: string escaping
//! and parsing, the JSON number grammar, and a small JSON value reader
//! with member lookup for the schema layers above.

use vstd::prelude::*;
use vstd::string::*;

verus! {

broadcast use vstd::std_specs::vec::axiom_vec_decreases_to_view, vstd::seq::axiom_seq_index_decreases, vstd::seq::axiom_seq_subrange_decreases;

/// Relies on `String::push` (std): it appends exactly the given
/// character to the end of the string.
#[verifier::external_body]
pub(crate) fn push_char(s: &mut String, c: char)
    ensures
        final(s)@ == old(s)@.push(c),
{
    s.push(c);
}

/// Collects the characters of a string slice into a vector.
pub fn to_chars(s: &str) -> (r: Vec<char>)
    ensures
        r@ == s@,
{
    let n = s.unicode_len();
    let mut r: Vec<char> = Vec::new();
    let mut i: usize = 0;
    while i < n
        invariant
            i <= n,
            n == s@.len(),
            r@ == s@.take(i as int),
        decreases n - i,
    {
        r.push(s.get_char(i));
        proof {
            assert(s@.take(i + 1) =~= s@.take(i as int).push(s@[i as int]));
        }
        i = i + 1;
    }
    proof {
        assert(s@.take(n as int) =~= s@);
    }
    r
}

/// The characters of `l` stand in `s` starting at position `i`.
pub open spec fn spec_match_at(s: Seq<char>, i: int, l: Seq<char>) -> bool {
    0 <= i && i + l.len() <= s.len() && s.subrange(i, i + l.len()) == l
}

/// Compares the characters of `lit` against `v` at position `i`.
pub fn match_at(v: &Vec<char>, i: usize, lit: &str) -> (b: bool)
    ensures
        b == spec_match_at(v@, i as int, lit@),
{
    let m = lit.unicode_len();
    let n = v.len();
    if m > n || i > n - m {
        return false;
    }
    let mut k: usize = 0;
    while k < m
        invariant
            k <= m,
            m == lit@.len(),
            n == v@.len(),
            i + m <= n,
            forall|j: int| 0 <= j < k ==> v@[i + j] == lit@[j],
        decreases m - k,
    {
        if v[i + k] != lit.get_char(k) {
            proof {
                assert(v@.subrange(i as int, i + lit@.len())[k as int] == v@[i + k]);
            }
            return false;
        }
        k = k + 1;
    }
    proof {
        assert(v@.subrange(i as int, i + lit@.len()) =~= lit@);
    }
    true
}

/// One hexadecimal digit, lower case.
pub open spec fn spec_hex_digit(n: u8) -> char
    recommends
        n < 16,
{
    if n < 10 {
        ((0x30 + n) as u8) as char
    } else {
        ((0x57 + n) as u8) as char
    }
}

/// Computes one lower-case hexadecimal digit.
pub fn hex_digit(n: u8) -> (c: char)
    requires
        n < 16,
    ensures
        c == spec_hex_digit(n),
{
    if n < 10 {
        (0x30 + n) as char
    } else {
        (0x57 + n) as char
    }
}

/// How one character is rendered inside a JSON string: quote and
/// backslash get a two-character escape, the named control characters
/// get their short escapes, the remaining control characters get a
/// `\u00..` escape, and everything else stands verbatim.
pub open spec fn spec_escape_char(c: char) -> Seq<char> {
    if c == '"' {
        seq!['\\', '"']
    } else if c == '\\' {
        seq!['\\', '\\']
    } else if c == '\u{8}' {
        seq!['\\', 'b']
    } else if c == '\u{c}' {
        seq!['\\', 'f']
    } else if c == '\n' {
        seq!['\\', 'n']
    } else if c == '\r' {
        seq!['\\', 'r']
    } else if c == '\t' {
        seq!['\\', 't']
    } else if (c as u32) < 0x20 {
        seq!['\\', 'u', '0', '0', spec_hex_digit((c as u32 / 16) as u8), spec_hex_digit(
            (c as u32 % 16) as u8,
        )]
    } else {
        seq![c]
    }
}

/// The escaped rendering of a whole character sequence.
pub open spec fn spec_escape(s: Seq<char>) -> Seq<char>
    decreases s.len(),
{
    if s.len() == 0 {
        Seq::empty()
    } else {
        spec_escape(s.drop_last()) + spec_escape_char(s.last())
    }
}

/// A complete JSON string token: quote, escaped content, quote.
pub open spec fn spec_json_string(s: Seq<char>) -> Seq<char> {
    seq!['"'] + spec_escape(s) + seq!['"']
}

/// Appends the escaped rendering of `s` to `out`.
pub fn append_escaped(out: &mut String, s: &str)
    ensures
        final(out)@ == old(out)@ + spec_escape(s@),
{
    let ghost orig = out@;
    let n = s.unicode_len();
    let mut i: usize = 0;
    while i < n
        invariant
            i <= n,
            n == s@.len(),
            out@ == orig + spec_escape(s@.take(i as int)),
        decreases n - i,
    {
        let c = s.get_char(i);
        if c == '"' {
            out.append("\\\"");
            proof {
                reveal_strlit("\\\"");
                assert("\\\""@ =~= spec_escape_char(c));
            }
        } else if c == '\\' {
            out.append("\\\\");
            proof {
                reveal_strlit("\\\\");
                assert("\\\\"@ =~= spec_escape_char(c));
            }
        } else if c == '\u{8}' {
            out.append("\\b");
            proof {
                reveal_strlit("\\b");
                assert("\\b"@ =~= spec_escape_char(c));
            }
        } else if c == '\u{c}' {
            out.append("\\f");
            proof {
                reveal_strlit("\\f");
                assert("\\f"@ =~= spec_escape_char(c));
            }
        } else if c == '\n' {
            out.append("\\n");
            proof {
                reveal_strlit("\\n");
                assert("\\n"@ =~= spec_escape_char(c));
            }
        } else if c == '\r' {
            out.append("\\r");
            proof {
                reveal_strlit("\\r");
                assert("\\r"@ =~= spec_escape_char(c));
            }
        } else if c == '\t' {
            out.append("\\t");
            proof {
                reveal_strlit("\\t");
                assert("\\t"@ =~= spec_escape_char(c));
            }
        } else if (c as u32) < 0x20 {
            out.append("\\u00");
            let code = c as u32;
            push_char(out, hex_digit((code / 16) as u8));
            push_char(out, hex_digit((code % 16) as u8));
            proof {
                reveal_strlit("\\u00");
                assert("\\u00"@ + seq![spec_hex_digit((c as u32 / 16) as u8), spec_hex_digit(
                    (c as u32 % 16) as u8,
                )] =~= spec_escape_char(c));
            }
        } else {
            push_char(out, c);
            proof {
                assert(seq![c] =~= spec_escape_char(c));
            }
        }
        proof {
            assert(s@.take(i + 1).drop_last() =~= s@.take(i as int));
            assert(s@.take(i + 1).last() == s@[i as int]);
            assert(out@ =~= orig + spec_escape(s@.take(i + 1)));
        }
        i = i + 1;
    }
    proof {
        assert(s@.take(n as int) =~= s@);
    }
}

/// A decimal digit.
pub open spec fn spec_is_digit(c: char) -> bool {
    0x30 <= c as u32 && c as u32 <= 0x39
}

/// The position of the first non-digit at or after `i`.
pub open spec fn spec_skip_digits(s: Seq<char>, i: int) -> int
    decreases s.len() - i,
        when 0 <= i <= s.len()
{
    if i < s.len() && spec_is_digit(s[i]) {
        spec_skip_digits(s, i + 1)
    } else {
        i
    }
}

pub proof fn lemma_skip_digits_bounds(s: Seq<char>, i: int)
    requires
        0 <= i <= s.len(),
    ensures
        i <= spec_skip_digits(s, i) <= s.len(),
    decreases s.len() - i,
{
    if i < s.len() && spec_is_digit(s[i]) {
        lemma_skip_digits_bounds(s, i + 1);
    }
}

/// Advances over a run of decimal digits.
pub fn skip_digits(v: &Vec<char>, i: usize) -> (j: usize)
    requires
        i <= v@.len(),
    ensures
        j as int == spec_skip_digits(v@, i as int),
        i <= j <= v@.len(),
{
    let mut j = i;
    while j < v.len() && 0x30 <= v[j] as u32 && v[j] as u32 <= 0x39
        invariant
            i <= j <= v@.len(),
            spec_skip_digits(v@, i as int) == spec_skip_digits(v@, j as int),
        decreases v@.len() - j,
    {
        proof {
            assert(spec_skip_digits(v@, j as int) == spec_skip_digits(v@, j + 1));
        }
        j = j + 1;
    }
    proof {
        assert(spec_skip_digits(v@, j as int) == j);
    }
    j
}

/// The position just past a whitespace run: space, tab, line feed,
/// carriage return.
pub open spec fn spec_is_ws(c: char) -> bool {
    c == ' ' || c == '\t' || c == '\n' || c == '\r'
}

pub open spec fn spec_skip_ws(s: Seq<char>, i: int) -> int
    decreases s.len() - i,
        when 0 <= i <= s.len()
{
    if i < s.len() && spec_is_ws(s[i]) {
        spec_skip_ws(s, i + 1)
    } else {
        i
    }
}

/// Advances over a whitespace run.
pub fn skip_ws(v: &Vec<char>, i: usize) -> (j: usize)
    requires
        i <= v@.len(),
    ensures
        j as int == spec_skip_ws(v@, i as int),
        i <= j <= v@.len(),
{
    let mut j = i;
    while j < v.len() && (v[j] == ' ' || v[j] == '\t' || v[j] == '\n' || v[j] == '\r')
        invariant
            i <= j <= v@.len(),
            spec_skip_ws(v@, i as int) == spec_skip_ws(v@, j as int),
        decreases v@.len() - j,
    {
        proof {
            assert(spec_skip_ws(v@, j as int) == spec_skip_ws(v@, j + 1));
        }
        j = j + 1;
    }
    proof {
        assert(spec_skip_ws(v@, j as int) == j);
    }
    j
}

/// The end of a JSON number token at `i`: optional minus, an integer
/// part with no leading zero, an optional fraction, an optional
/// exponent.
pub open spec fn spec_scan_number(s: Seq<char>, i: int) -> Option<int>
    recommends
        0 <= i <= s.len(),
{
    let i0 = if i < s.len() && s[i] == '-' {
        i + 1
    } else {
        i
    };
    let j = spec_skip_digits(s, i0);
    if i0 >= s.len() || j == i0 || (s[i0] == '0' && j > i0 + 1) {
        None
    } else {
        spec_scan_frac(s, j)
    }
}

/// The rest of a number token from its optional fraction part on.
pub open spec fn spec_scan_frac(s: Seq<char>, i: int) -> Option<int>
    recommends
        0 <= i <= s.len(),
{
    if i < s.len() && s[i] == '.' {
        let j = spec_skip_digits(s, i + 1);
        if j == i + 1 {
            None
        } else {
            spec_scan_exp(s, j)
        }
    } else {
        spec_scan_exp(s, i)
    }
}

/// The rest of a number token from its optional exponent part on.
pub open spec fn spec_scan_exp(s: Seq<char>, i: int) -> Option<int>
    recommends
        0 <= i <= s.len(),
{
    if i < s.len() && (s[i] == 'e' || s[i] == 'E') {
        let i1 = if i + 1 < s.len() && (s[i + 1] == '+' || s[i + 1] == '-') {
            i + 2
        } else {
            i + 1
        };
        let j = spec_skip_digits(s, i1);
        if j == i1 {
            None
        } else {
            Some(j)
        }
    } else {
        Some(i)
    }
}

/// Scans one JSON number token.
pub fn scan_number(v: &Vec<char>, i: usize) -> (r: Option<usize>)
    requires
        i <= v@.len(),
    ensures
        r matches Some(e) ==> spec_scan_number(v@, i as int) == Some(e as int) && i < e
            <= v@.len(),
        r is None ==> spec_scan_number(v@, i as int) is None,
{
    let n = v.len();
    let i0 = if i < n && v[i] == '-' {
        i + 1
    } else {
        i
    };
    let j = skip_digits(v, i0);
    if i0 >= n || j == i0 {
        return None;
    }
    if v[i0] == '0' && j > i0 + 1 {
        return None;
    }
    let j2 = if j < n && v[j] == '.' {
        let jf = skip_digits(v, j + 1);
        if jf == j + 1 {
            return None;
        }
        jf
    } else {
        j
    };
    proof {
        assert(spec_scan_number(v@, i as int) == spec_scan_exp(v@, j2 as int));
    }
    if j2 < n && (v[j2] == 'e' || v[j2] == 'E') {
        let i1 = if j2 + 1 < n && (v[j2 + 1] == '+' || v[j2 + 1] == '-') {
            j2 + 2
        } else {
            j2 + 1
        };
        let je = skip_digits(v, i1);
        if je == i1 {
            return None;
        }
        Some(je)
    } else {
        Some(j2)
    }
}

/// The JSON number grammar, over a whole string.
pub open spec fn spec_valid_number(s: Seq<char>) -> bool {
    spec_scan_number(s, 0) == Some(s.len() as int)
}

/// What the builder accepts as a temperature: a JSON number, or the
/// JSON `null` that stands for a non-finite floating-point value.
pub open spec fn spec_valid_temperature(s: Seq<char>) -> bool {
    s == "null"@ || spec_valid_number(s)
}

/// The default temperature numeral is a valid JSON number.
pub proof fn lemma_default_temperature_valid()
    ensures
        spec_valid_temperature("0.0"@),
{
    reveal_strlit("0.0");
    let s = "0.0"@;
    assert(spec_skip_digits(s, 1) == 1);
    assert(spec_skip_digits(s, 0) == 1);
    assert(spec_skip_digits(s, 3) == 3);
    assert(spec_skip_digits(s, 2) == 3);
    assert(spec_scan_exp(s, 3) == Some(3int));
    assert(spec_scan_frac(s, 1) == Some(3int));
    assert(spec_scan_number(s, 0) == Some(3int));
}

/// Decides whether `s` may stand as the serialized temperature.
pub fn is_valid_temperature(s: &str) -> (b: bool)
    ensures
        b == spec_valid_temperature(s@),
{
    let v = to_chars(s);
    proof {
        reveal_strlit("null");
    }
    if match_at(&v, 0, "null") && v.len() == 4 {
        proof {
            assert(v@ =~= "null"@) by {
                assert(v@.subrange(0, 4) =~= v@);
            }
        }
        return true;
    }
    proof {
        if v@ == "null"@ {
            assert(v@.subrange(0, 4) =~= "null"@);
            assert(spec_match_at(v@, 0, "null"@));
        }
    }
    match scan_number(&v, 0) {
        Some(e) => e == v.len(),
        None => false,
    }
}

/// Ten to the `n`th power.
pub open spec fn pow10(n: nat) -> int
    decreases n,
{
    if n == 0 {
        1
    } else {
        10 * pow10((n - 1) as nat)
    }
}

pub proof fn lemma_pow10_pos(n: nat)
    ensures
        pow10(n) >= 1,
    decreases n,
{
    if n > 0 {
        lemma_pow10_pos((n - 1) as nat);
    }
}

pub proof fn lemma_pow10_mono(a: nat, b: nat)
    requires
        a <= b,
    ensures
        pow10(a) <= pow10(b),
    decreases b,
{
    if a < b {
        lemma_pow10_mono(a, (b - 1) as nat);
        lemma_pow10_pos((b - 1) as nat);
    }
}

pub proof fn lemma_pow10_10()
    ensures
        pow10(10) == 10_000_000_000,
{
    assert(pow10(0) == 1);
    assert(pow10(1) == 10);
    assert(pow10(2) == 100);
    assert(pow10(3) == 1000);
    assert(pow10(4) == 10000);
    assert(pow10(5) == 100000);
    assert(pow10(6) == 1000000);
    assert(pow10(7) == 10000000);
    assert(pow10(8) == 100000000);
    assert(pow10(9) == 1000000000);
}

/// Every position of a digit run is a digit.
pub proof fn lemma_skip_digits_all_digits(s: Seq<char>, i: int)
    requires
        0 <= i <= s.len(),
    ensures
        forall|k: int| i <= k < spec_skip_digits(s, i) ==> spec_is_digit(s[k]),
    decreases s.len() - i,
{
    lemma_skip_digits_bounds(s, i);
    if i < s.len() && spec_is_digit(s[i]) {
        lemma_skip_digits_all_digits(s, i + 1);
    }
}

/// The numeric value of one digit character.
pub open spec fn spec_digit_val(c: char) -> int {
    c as u32 - 0x30
}

/// The numeric value of a digit run, most significant first.
pub open spec fn spec_digits_val(s: Seq<char>) -> int
    decreases s.len(),
{
    if s.len() == 0 {
        0
    } else {
        spec_digits_val(s.drop_last()) * 10 + spec_digit_val(s.last())
    }
}

/// A run of at most ten digits with no leading zero, read as an
/// unsigned 32-bit integer; too many digits or too large a value is a
/// parse failure.
pub open spec fn spec_parse_u32(s: Seq<char>, i: int) -> Option<(u32, int)>
    recommends
        0 <= i <= s.len(),
{
    let j = spec_skip_digits(s, i);
    if j == i || j - i > 10 {
        None
    } else if s[i] == '0' && j > i + 1 {
        None
    } else if spec_digits_val(s.subrange(i, j)) > 0xffff_ffff {
        None
    } else {
        Some((spec_digits_val(s.subrange(i, j)) as u32, j))
    }
}

/// Reads a decimal integer token as a `u32`.
pub fn parse_u32(v: &Vec<char>, i: usize) -> (r: Option<(u32, usize)>)
    requires
        i <= v@.len(),
    ensures
        r matches Some(p) ==> spec_parse_u32(v@, i as int) == Some((p.0, p.1 as int)) && i < p.1
            <= v@.len(),
        r is None ==> spec_parse_u32(v@, i as int) is None,
{
    let j = skip_digits(v, i);
    if j == i || j - i > 10 {
        return None;
    }
    if v[i] == '0' && j > i + 1 {
        return None;
    }
    proof {
        lemma_skip_digits_all_digits(v@, i as int);
        lemma_pow10_10();
    }
    let mut acc: u64 = 0;
    let mut k = i;
    while k < j
        invariant
            i <= k <= j <= v@.len(),
            j - i <= 10,
            j as int == spec_skip_digits(v@, i as int),
            forall|t: int| i <= t < j ==> spec_is_digit(v@[t]),
            acc == spec_digits_val(v@.subrange(i as int, k as int)),
            0 <= acc < pow10((k - i) as nat),
            pow10(10) == 10_000_000_000,
        decreases j - k,
    {
        let d = v[k] as u32 - 0x30;
        proof {
            lemma_pow10_mono((k - i) as nat, 9);
            assert(pow10(9) * 10 == pow10(10));
            assert(v@.subrange(i as int, k + 1).drop_last() =~= v@.subrange(i as int, k as int));
            assert(v@.subrange(i as int, k + 1).last() == v@[k as int]);
        }
        acc = acc * 10 + d as u64;
        k = k + 1;
    }
    proof {
        assert(v@.subrange(i as int, j as int) =~= v@.subrange(i as int, k as int));
    }
    if acc > 0xffff_ffff {
        return None;
    }
    Some((acc as u32, j))
}

/// What one escape letter stands for; the `\u` form is handled
/// separately, four hex digits at a time.
pub open spec fn spec_unescape_char(c: char) -> Option<char> {
    if c == '"' {
        Some('"')
    } else if c == '\\' {
        Some('\\')
    } else if c == '/' {
        Some('/')
    } else if c == 'b' {
        Some('\u{8}')
    } else if c == 'f' {
        Some('\u{c}')
    } else if c == 'n' {
        Some('\n')
    } else if c == 'r' {
        Some('\r')
    } else if c == 't' {
        Some('\t')
    } else {
        None
    }
}

/// Decodes one escape letter.
fn unescape_char(c: char) -> (r: Option<char>)
    ensures
        r == spec_unescape_char(c),
{
    if c == '"' {
        Some('"')
    } else if c == '\\' {
        Some('\\')
    } else if c == '/' {
        Some('/')
    } else if c == 'b' {
        Some('\u{8}')
    } else if c == 'f' {
        Some('\u{c}')
    } else if c == 'n' {
        Some('\n')
    } else if c == 'r' {
        Some('\r')
    } else if c == 't' {
        Some('\t')
    } else {
        None
    }
}

/// The numeric value of one hexadecimal digit, either case.
pub open spec fn spec_hex_val(c: char) -> Option<u32> {
    if 0x30 <= c as u32 && c as u32 <= 0x39 {
        Some((c as u32 - 0x30) as u32)
    } else if 0x61 <= c as u32 && c as u32 <= 0x66 {
        Some((c as u32 - 0x61 + 10) as u32)
    } else if 0x41 <= c as u32 && c as u32 <= 0x46 {
        Some((c as u32 - 0x41 + 10) as u32)
    } else {
        None
    }
}

/// Reads one hexadecimal digit.
fn hex_val(c: char) -> (r: Option<u32>)
    ensures
        r == spec_hex_val(c),
{
    let u = c as u32;
    if 0x30 <= u && u <= 0x39 {
        Some(u - 0x30)
    } else if 0x61 <= u && u <= 0x66 {
        Some(u - 0x61 + 10)
    } else if 0x41 <= u && u <= 0x46 {
        Some(u - 0x41 + 10)
    } else {
        None
    }
}

/// The code unit of four hexadecimal digits at `i`.
pub open spec fn spec_hex4(s: Seq<char>, i: int) -> Option<u32>
    recommends
        0 <= i,
        i + 4 <= s.len(),
{
    match (spec_hex_val(s[i]), spec_hex_val(s[i + 1]), spec_hex_val(s[i + 2]), spec_hex_val(
        s[i + 3],
    )) {
        (Some(a), Some(b), Some(c), Some(d)) => Some((a * 4096 + b * 256 + c * 16 + d) as u32),
        _ => None,
    }
}

/// Reads four hexadecimal digits as one code unit.
fn hex4(v: &Vec<char>, i: usize) -> (r: Option<u32>)
    requires
        i + 4 <= v@.len(),
    ensures
        r == spec_hex4(v@, i as int),
        r matches Some(u) ==> u < 0x10000,
{
    let n = v.len();
    let a = match hex_val(v[i]) {
        Some(x) => x,
        None => {
            return None;
        },
    };
    let b = match hex_val(v[i + 1]) {
        Some(x) => x,
        None => {
            return None;
        },
    };
    let c = match hex_val(v[i + 2]) {
        Some(x) => x,
        None => {
            return None;
        },
    };
    let d = match hex_val(v[i + 3]) {
        Some(x) => x,
        None => {
            return None;
        },
    };
    Some(a * 4096 + b * 256 + c * 16 + d)
}

/// A Unicode scalar value: any code point that is not a surrogate.
pub open spec fn spec_is_scalar(v: u32) -> bool {
    v < 0xD800 || (0xE000 <= v && v <= 0x10FFFF)
}

/// What `char::from_u32` yields: the code point, for scalar values.
pub open spec fn spec_char_from_u32(v: u32) -> Option<char> {
    if spec_is_scalar(v) {
        Some(v as char)
    } else {
        None
    }
}

/// Relies on `char::from_u32` (std): it returns `Some` exactly for
/// values that are no surrogates and at most 0x10FFFF, yielding the
/// character with that code point.
#[verifier::external_body]
fn char_from_u32(v: u32) -> (r: Option<char>)
    ensures
        r == spec_char_from_u32(v),
{
    char::from_u32(v)
}

/// The content and end position of a JSON string whose opening quote
/// sits just before `i`: characters up to the closing quote, escapes
/// decoded (`\uXXXX` included, surrogate pairs combined), raw control
/// characters and lone surrogates refused.
pub open spec fn spec_parse_string_body(s: Seq<char>, i: int) -> Option<(Seq<char>, int)>
    decreases s.len() - i,
        when 0 <= i <= s.len()
{
    if i >= s.len() {
        None
    } else if s[i] == '"' {
        Some((Seq::empty(), i + 1))
    } else if s[i] == '\\' {
        if i + 1 >= s.len() {
            None
        } else if s[i + 1] == 'u' {
            if i + 6 > s.len() {
                None
            } else {
                match spec_hex4(s, i + 2) {
                    None => None,
                    Some(code) => if 0xD800 <= code && code < 0xDC00 {
                        if i + 12 > s.len() || s[i + 6] != '\\' || s[i + 7] != 'u' {
                            None
                        } else {
                            match spec_hex4(s, i + 8) {
                                None => None,
                                Some(low) => if 0xDC00 <= low && low < 0xE000 {
                                    match spec_parse_string_body(s, i + 12) {
                                        None => None,
                                        Some(p) => Some(
                                            (
                                                seq![
                                                    (0x10000 + (code - 0xD800) * 0x400 + (low
                                                        - 0xDC00)) as char
                                                ] + p.0,
                                                p.1,
                                            ),
                                        ),
                                    }
                                } else {
                                    None
                                },
                            }
                        }
                    } else if 0xDC00 <= code && code < 0xE000 {
                        None
                    } else {
                        match spec_parse_string_body(s, i + 6) {
                            None => None,
                            Some(p) => Some((seq![code as char] + p.0, p.1)),
                        }
                    },
                }
            }
        } else {
            match spec_unescape_char(s[i + 1]) {
                None => None,
                Some(ec) => match spec_parse_string_body(s, i + 2) {
                    None => None,
                    Some(p) => Some((seq![ec] + p.0, p.1)),
                },
            }
        }
    } else if (s[i] as u32) < 0x20 {
        None
    } else {
        match spec_parse_string_body(s, i + 1) {
            None => None,
            Some(p) => Some((seq![s[i]] + p.0, p.1)),
        }
    }
}

pub proof fn lemma_parse_string_body_bounds(s: Seq<char>, i: int)
    requires
        0 <= i <= s.len(),
    ensures
        spec_parse_string_body(s, i) matches Some(p) ==> i < p.1 <= s.len(),
    decreases s.len() - i,
{
    if i < s.len() && s[i] == '\\' && i + 1 < s.len() {
        if s[i + 1] == 'u' {
            if i + 6 <= s.len() {
                lemma_parse_string_body_bounds(s, i + 6);
            }
            if i + 12 <= s.len() {
                lemma_parse_string_body_bounds(s, i + 12);
            }
        } else if i + 2 <= s.len() {
            lemma_parse_string_body_bounds(s, i + 2);
        }
    } else if i < s.len() {
        lemma_parse_string_body_bounds(s, i + 1);
    }
}

/// A complete JSON string token at `i`: an opening quote, content,
/// a closing quote.
pub open spec fn spec_parse_string(s: Seq<char>, i: int) -> Option<(Seq<char>, int)> {
    if 0 <= i && i < s.len() && s[i] == '"' {
        spec_parse_string_body(s, i + 1)
    } else {
        None
    }
}

/// Reads a JSON string token, decoding its escapes.
#[verifier::rlimit(60)]
pub fn parse_string(v: &Vec<char>, i: usize) -> (r: Option<(String, usize)>)
    requires
        i <= v@.len(),
    ensures
        r matches Some(p) ==> spec_parse_string(v@, i as int) matches Some(q) && q.0 == p.0@ && q.1
            == p.1 as int && i < p.1 <= v@.len(),
        r is None ==> spec_parse_string(v@, i as int) is None,
{
    let n = v.len();
    if i >= n || v[i] != '"' {
        return None;
    }
    let mut j = i + 1;
    let mut out = String::new();
    loop
        invariant
            i + 1 <= j <= n,
            n == v@.len(),
            v@[i as int] == '"',
            ({
                match spec_parse_string_body(v@, j as int) {
                    None => spec_parse_string_body(v@, i + 1) is None,
                    Some(p) => spec_parse_string_body(v@, i + 1) matches Some(q) && q.0 == out@
                        + p.0 && q.1 == p.1,
                }
            }),
        decreases n - j,
    {
        if j >= n {
            return None;
        }
        let c = v[j];
        if c == '"' {
            proof {
                assert(spec_parse_string_body(v@, j as int) == Some(
                    (Seq::<char>::empty(), j + 1),
                ));
                assert(out@ + Seq::<char>::empty() =~= out@);
                lemma_parse_string_body_bounds(v@, i + 1);
            }
            return Some((out, j + 1));
        }
        if c == '\\' {
            if j + 1 >= n {
                return None;
            }
            if v[j + 1] == 'u' {
                if n - j < 6 {
                    return None;
                }
                let code = match hex4(v, j + 2) {
                    Some(x) => x,
                    None => {
                        return None;
                    },
                };
                if 0xD800 <= code && code < 0xDC00 {
                    if n - j < 12 || v[j + 6] != '\\' || v[j + 7] != 'u' {
                        return None;
                    }
                    let low = match hex4(v, j + 8) {
                        Some(x) => x,
                        None => {
                            return None;
                        },
                    };
                    if !(0xDC00 <= low && low < 0xE000) {
                        return None;
                    }
                    let scalar = 0x10000 + (code - 0xD800) * 0x400 + (low - 0xDC00);
                    let ec = match char_from_u32(scalar) {
                        Some(x) => x,
                        None => {
                            return None;
                        },
                    };
                    let ghost out0 = out@;
                    push_char(&mut out, ec);
                    proof {
                        match spec_parse_string_body(v@, j + 12) {
                            None => {
                                assert(spec_parse_string_body(v@, j as int) is None);
                            },
                            Some(p) => {
                                assert(spec_parse_string_body(v@, j as int) == Some(
                                    (seq![ec] + p.0, p.1),
                                ));
                                assert(out0 + (seq![ec] + p.0) =~= out0.push(ec) + p.0);
                            },
                        }
                    }
                    j = j + 12;
                    continue;
                }
                if 0xDC00 <= code && code < 0xE000 {
                    return None;
                }
                let ec = match char_from_u32(code) {
                    Some(x) => x,
                    None => {
                        return None;
                    },
                };
                let ghost out0 = out@;
                push_char(&mut out, ec);
                proof {
                    match spec_parse_string_body(v@, j + 6) {
                        None => {
                            assert(spec_parse_string_body(v@, j as int) is None);
                        },
                        Some(p) => {
                            assert(spec_parse_string_body(v@, j as int) == Some(
                                (seq![ec] + p.0, p.1),
                            ));
                            assert(out0 + (seq![ec] + p.0) =~= out0.push(ec) + p.0);
                        },
                    }
                }
                j = j + 6;
                continue;
            }
            match unescape_char(v[j + 1]) {
                None => {
                    return None;
                },
                Some(ec) => {
                    let ghost out0 = out@;
                    push_char(&mut out, ec);
                    proof {
                        match spec_parse_string_body(v@, j + 2) {
                            None => {
                                assert(spec_parse_string_body(v@, j as int) is None);
                            },
                            Some(p) => {
                                assert(spec_parse_string_body(v@, j as int) == Some(
                                    (seq![ec] + p.0, p.1),
                                ));
                                assert(out0 + (seq![ec] + p.0) =~= out0.push(ec) + p.0);
                            },
                        }
                    }
                    j = j + 2;
                },
            }
        } else if (c as u32) < 0x20 {
            return None;
        } else {
            let ghost out0 = out@;
            push_char(&mut out, c);
            proof {
                match spec_parse_string_body(v@, j + 1) {
                    None => {
                        assert(spec_parse_string_body(v@, j as int) is None);
                    },
                    Some(p) => {
                        assert(spec_parse_string_body(v@, j as int) == Some((seq![c] + p.0, p.1)));
                        assert(out0 + (seq![c] + p.0) =~= out0.push(c) + p.0);
                    },
                }
            }
            j = j + 1;
        }
    }
}

/// Escaping distributes over concatenation.
pub proof fn lemma_escape_concat(a: Seq<char>, b: Seq<char>)
    ensures
        spec_escape(a + b) == spec_escape(a) + spec_escape(b),
    decreases b.len(),
{
    if b.len() == 0 {
        assert(a + b =~= a);
        assert(spec_escape(a) + spec_escape(b) =~= spec_escape(a));
    } else {
        assert((a + b).drop_last() =~= a + b.drop_last());
        assert((a + b).last() == b.last());
        lemma_escape_concat(a, b.drop_last());
        assert(spec_escape(a) + (spec_escape(b.drop_last()) + spec_escape_char(b.last())) =~= (
        spec_escape(a) + spec_escape(b.drop_last())) + spec_escape_char(b.last()));
    }
}

/// String-body parsing only looks at the input from its start
/// position on: a common prefix shifts positions and nothing else.
pub proof fn lemma_parse_string_body_shift(w: Seq<char>, v: Seq<char>, i: int)
    requires
        0 <= i <= v.len(),
    ensures
        spec_parse_string_body(w + v, w.len() + i) == (match spec_parse_string_body(v, i) {
            None => None,
            Some(p) => Some((p.0, p.1 + w.len())),
        }),
    decreases v.len() - i,
{
    let u = w + v;
    assert(forall|k: int| 0 <= k < v.len() ==> u[w.len() + k] == v[k]);
    if i < v.len() {
        let c = v[i];
        if c == '\\' {
            if i + 1 < v.len() {
                if v[i + 1] == 'u' {
                    if i + 6 <= v.len() {
                        match spec_hex4(v, i + 2) {
                            Some(code) => {
                                if 0xD800 <= code && code < 0xDC00 {
                                    if i + 12 <= v.len() && v[i + 6] == '\\' && v[i + 7] == 'u' {
                                        match spec_hex4(v, i + 8) {
                                            Some(low) => {
                                                if 0xDC00 <= low && low < 0xE000 {
                                                    lemma_parse_string_body_shift(w, v, i + 12);
                                                }
                                            },
                                            None => {},
                                        }
                                    }
                                } else if !(0xDC00 <= code && code < 0xE000) {
                                    lemma_parse_string_body_shift(w, v, i + 6);
                                }
                            },
                            None => {},
                        }
                    }
                } else if spec_unescape_char(v[i + 1]) is Some {
                    lemma_parse_string_body_shift(w, v, i + 2);
                }
            }
        } else if c != '"' && (c as u32) >= 0x20 {
            lemma_parse_string_body_shift(w, v, i + 1);
        }
    }
}

/// One step of the round trip, for a character with a two-letter
/// escape.
#[verifier::rlimit(100)]
#[verifier::spinoff_prover]
proof fn lemma_round_trip_step_named(c: char, rest: Seq<char>, tail: Seq<char>)
    requires
        c == '"' || c == '\\' || c == '\u{8}' || c == '\u{c}' || c == '\n' || c == '\r' || c
            == '\t',
        spec_parse_string_body(spec_escape(rest) + seq!['"'] + tail, 0) == Some(
            (rest, spec_escape(rest).len() as int + 1),
        ),
    ensures
        spec_parse_string_body(spec_escape_char(c) + (spec_escape(rest) + seq!['"'] + tail), 0)
            == Some((seq![c] + rest, spec_escape_char(c).len() + spec_escape(rest).len() as int + 1)),
{
    let ec = spec_escape_char(c);
    let v2 = spec_escape(rest) + seq!['"'] + tail;
    let full = ec + v2;
    lemma_parse_string_body_shift(ec, v2, 0);
    assert(ec.len() == 2 && ec[0] == '\\' && spec_unescape_char(ec[1]) == Some(c));
    assert(full[0] == '\\');
    assert(full[1] == ec[1]);
    assert(spec_parse_string_body(full, 2) == Some((rest, spec_escape(rest).len() as int + 1 + 2)));
    assert(spec_parse_string_body(full, 0) == Some(
        (seq![c] + rest, spec_escape(rest).len() as int + 3),
    ));
}

/// One step of the round trip, for a control character that only the
/// `\u00..` escape form can carry.
#[verifier::rlimit(100)]
#[verifier::spinoff_prover]
proof fn lemma_round_trip_step_control(c: char, rest: Seq<char>, tail: Seq<char>)
    requires
        (c as u32) < 0x20,
        c != '\u{8}' && c != '\u{c}' && c != '\n' && c != '\r' && c != '\t',
        spec_parse_string_body(spec_escape(rest) + seq!['"'] + tail, 0) == Some(
            (rest, spec_escape(rest).len() as int + 1),
        ),
    ensures
        spec_parse_string_body(spec_escape_char(c) + (spec_escape(rest) + seq!['"'] + tail), 0)
            == Some((seq![c] + rest, spec_escape_char(c).len() + spec_escape(rest).len() as int + 1)),
{
    let ec = spec_escape_char(c);
    let v2 = spec_escape(rest) + seq!['"'] + tail;
    let full = ec + v2;
    lemma_parse_string_body_shift(ec, v2, 0);
    let hi = spec_hex_digit((c as u32 / 16) as u8);
    let lo = spec_hex_digit((c as u32 % 16) as u8);
    assert(ec =~= seq!['\\', 'u', '0', '0', hi, lo]);
    assert(spec_hex_val('0') == Some(0u32));
    assert(spec_hex_val(hi) == Some((c as u32 / 16) as u32));
    assert(spec_hex_val(lo) == Some((c as u32 % 16) as u32));
    assert(full[0] == '\\');
    assert(full[1] == 'u');
    assert(full[2] == '0');
    assert(full[3] == '0');
    assert(full[4] == hi);
    assert(full[5] == lo);
    assert(spec_hex4(full, 2) == Some(c as u32));
    vstd::utf8::char_u32_cast(c, c as u32);
    assert(spec_parse_string_body(full, 6) == Some((rest, spec_escape(rest).len() as int + 1 + 6)));
    assert(spec_parse_string_body(full, 0) == Some(
        (seq![c] + rest, spec_escape(rest).len() as int + 7),
    ));
}

/// One step of the round trip, for a character that stands verbatim.
#[verifier::rlimit(100)]
#[verifier::spinoff_prover]
proof fn lemma_round_trip_step_plain(c: char, rest: Seq<char>, tail: Seq<char>)
    requires
        (c as u32) >= 0x20,
        c != '"' && c != '\\',
        spec_parse_string_body(spec_escape(rest) + seq!['"'] + tail, 0) == Some(
            (rest, spec_escape(rest).len() as int + 1),
        ),
    ensures
        spec_parse_string_body(spec_escape_char(c) + (spec_escape(rest) + seq!['"'] + tail), 0)
            == Some((seq![c] + rest, spec_escape_char(c).len() + spec_escape(rest).len() as int + 1)),
{
    let ec = spec_escape_char(c);
    let v2 = spec_escape(rest) + seq!['"'] + tail;
    let full = ec + v2;
    lemma_parse_string_body_shift(ec, v2, 0);
    assert(ec =~= seq![c]);
    assert(full[0] == c);
    assert(spec_parse_string_body(full, 1) == Some((rest, spec_escape(rest).len() as int + 1 + 1)));
    assert(spec_parse_string_body(full, 0) == Some(
        (seq![c] + rest, spec_escape(rest).len() as int + 2),
    ));
}

/// Decoding inverts escaping: the escaped rendering of `s`, its
/// closing quote and anything after parse back to exactly `s`, the
/// parse ending just past that quote.
#[verifier::rlimit(100)]
#[verifier::spinoff_prover]
pub proof fn lemma_escape_round_trip(s: Seq<char>, tail: Seq<char>)
    ensures
        spec_parse_string_body(spec_escape(s) + seq!['"'] + tail, 0) == Some(
            (s, spec_escape(s).len() as int + 1),
        ),
    decreases s.len(),
{
    let full = spec_escape(s) + seq!['"'] + tail;
    if s.len() == 0 {
        assert(spec_escape(s) =~= Seq::<char>::empty());
        assert(full[0] == '"');
    } else {
        let c = s[0];
        let rest = s.subrange(1, s.len() as int);
        assert(s =~= seq![c] + rest);
        lemma_escape_concat(seq![c], rest);
        assert(seq![c].drop_last() =~= Seq::<char>::empty());
        assert(seq![c].last() == c);
        let ec = spec_escape_char(c);
        assert(spec_escape(Seq::<char>::empty()) =~= Seq::<char>::empty());
        assert(spec_escape(seq![c]) == spec_escape(seq![c].drop_last()) + spec_escape_char(
            seq![c].last(),
        ));
        assert(spec_escape(seq![c]) =~= ec);
        let v2 = spec_escape(rest) + seq!['"'] + tail;
        assert(full =~= ec + v2);
        lemma_escape_round_trip(rest, tail);
        if c == '"' || c == '\\' || c == '\u{8}' || c == '\u{c}' || c == '\n' || c == '\r' || c
            == '\t' {
            lemma_round_trip_step_named(c, rest, tail);
        } else if (c as u32) < 0x20 {
            lemma_round_trip_step_control(c, rest, tail);
        } else {
            lemma_round_trip_step_plain(c, rest, tail);
        }
        assert(seq![c] + rest =~= s);
        assert(spec_escape(s).len() == ec.len() + spec_escape(rest).len());
    }
}

/// Decoding inverts encoding for a whole JSON string token.
pub proof fn lemma_json_string_round_trip(s: Seq<char>, tail: Seq<char>)
    ensures
        spec_parse_string(spec_json_string(s) + tail, 0) == Some(
            (s, spec_json_string(s).len() as int),
        ),
{
    let full = spec_json_string(s) + tail;
    let v = spec_escape(s) + seq!['"'] + tail;
    assert(full =~= seq!['"'] + v);
    assert(full[0] == '"');
    lemma_escape_round_trip(s, tail);
    lemma_parse_string_body_shift(seq!['"'], v, 0);
    assert(spec_parse_string_body(full, 1) == Some((s, spec_escape(s).len() as int + 2)));
}

/// The position just past `l`, where `l` stands in `s` at `i`.
pub open spec fn spec_lit(s: Seq<char>, i: int, l: Seq<char>) -> Option<int> {
    if spec_match_at(s, i, l) {
        Some(i + l.len())
    } else {
        None
    }
}

/// Advances over an expected literal.
pub fn expect_lit(v: &Vec<char>, i: usize, lit: &str) -> (r: Option<usize>)
    ensures
        r matches Some(j) ==> spec_lit(v@, i as int, lit@) == Some(j as int) && i <= j <= v@.len(),
        r is None ==> spec_lit(v@, i as int, lit@) is None,
{
    let n = v.len();
    let m = lit.unicode_len();
    if match_at(v, i, lit) {
        proof {
            assert(i + m <= n);
        }
        Some(i + m)
    } else {
        None
    }
}

/// Appends the complete JSON string token for `s` to `out`.
pub fn append_json_string(out: &mut String, s: &str)
    ensures
        final(out)@ == old(out)@ + spec_json_string(s@),
{
    let ghost orig = out@;
    out.append("\"");
    append_escaped(out, s);
    out.append("\"");
    proof {
        reveal_strlit("\"");
        assert("\""@ =~= seq!['"']);
        assert(out@ =~= orig + spec_json_string(s@));
    }
}

/// One decoded JSON value. Numbers are kept only when they are plain
/// unsigned 32-bit integers — the schema's token counters and indices;
/// every other number form is remembered as a number without a value.
pub enum JsonValue {
    Null,
    Bool(bool),
    NumU32(u32),
    NumOther,
    Str(String),
    Arr(Vec<JsonValue>),
    Obj(Vec<(String, JsonValue)>),
}

/// Mathematical image of [`JsonValue`].
pub ghost enum JsonValueView {
    Null,
    Bool(bool),
    NumU32(u32),
    NumOther,
    Str(Seq<char>),
    Arr(Seq<JsonValueView>),
    Obj(Seq<(Seq<char>, JsonValueView)>),
}

pub open spec fn spec_value_view(j: JsonValue) -> JsonValueView
    decreases j,
{
    match j {
        JsonValue::Null => JsonValueView::Null,
        JsonValue::Bool(b) => JsonValueView::Bool(b),
        JsonValue::NumU32(x) => JsonValueView::NumU32(x),
        JsonValue::NumOther => JsonValueView::NumOther,
        JsonValue::Str(s) => JsonValueView::Str(s@),
        JsonValue::Arr(es) => JsonValueView::Arr(spec_values_view(es@)),
        JsonValue::Obj(ms) => JsonValueView::Obj(spec_members_view(ms@)),
    }
}

pub open spec fn spec_values_view(s: Seq<JsonValue>) -> Seq<JsonValueView>
    decreases s,
{
    if s.len() == 0 {
        Seq::empty()
    } else {
        spec_values_view(s.drop_last()).push(spec_value_view(s.last()))
    }
}

pub open spec fn spec_members_view(s: Seq<(String, JsonValue)>) -> Seq<(Seq<char>, JsonValueView)>
    decreases s,
{
    if s.len() == 0 {
        Seq::empty()
    } else {
        spec_members_view(s.drop_last()).push((s.last().0@, spec_value_view(s.last().1)))
    }
}

pub proof fn lemma_values_view_len_index(s: Seq<JsonValue>)
    ensures
        spec_values_view(s).len() == s.len(),
        forall|t: int|
            0 <= t < s.len() ==> #[trigger] spec_values_view(s)[t] == spec_value_view(s[t]),
    decreases s.len(),
{
    if s.len() > 0 {
        lemma_values_view_len_index(s.drop_last());
    }
}

pub proof fn lemma_members_view_len_index(s: Seq<(String, JsonValue)>)
    ensures
        spec_members_view(s).len() == s.len(),
        forall|t: int|
            0 <= t < s.len() ==> #[trigger] spec_members_view(s)[t] == (
                s[t].0@,
                spec_value_view(s[t].1),
            ),
    decreases s.len(),
{
    if s.len() > 0 {
        lemma_members_view_len_index(s.drop_last());
    }
}

/// One JSON value at `i`, whitespace between tokens allowed, object
/// members kept in the order they stand on the wire.
pub open spec fn spec_parse_value(s: Seq<char>, i: int) -> Option<(JsonValueView, int)>
    decreases s.len() - i, 0int,
        when 0 <= i <= s.len()
{
    if i >= s.len() {
        None
    } else {
        let c = s[i];
        if c == '"' {
            match spec_parse_string_body(s, i + 1) {
                None => None,
                Some(p) => Some((JsonValueView::Str(p.0), p.1)),
            }
        } else if c == '{' {
            let j = spec_skip_ws(s, i + 1);
            if j <= i || j > s.len() {
                None
            } else if j < s.len() && s[j] == '}' {
                Some((JsonValueView::Obj(Seq::empty()), j + 1))
            } else {
                match spec_parse_members(s, j) {
                    None => None,
                    Some(p) => Some((JsonValueView::Obj(p.0), p.1)),
                }
            }
        } else if c == '[' {
            let j = spec_skip_ws(s, i + 1);
            if j <= i || j > s.len() {
                None
            } else if j < s.len() && s[j] == ']' {
                Some((JsonValueView::Arr(Seq::empty()), j + 1))
            } else {
                match spec_parse_elements(s, j) {
                    None => None,
                    Some(p) => Some((JsonValueView::Arr(p.0), p.1)),
                }
            }
        } else if c == 't' {
            match spec_lit(s, i, "true"@) {
                Some(j) => Some((JsonValueView::Bool(true), j)),
                None => None,
            }
        } else if c == 'f' {
            match spec_lit(s, i, "false"@) {
                Some(j) => Some((JsonValueView::Bool(false), j)),
                None => None,
            }
        } else if c == 'n' {
            match spec_lit(s, i, "null"@) {
                Some(j) => Some((JsonValueView::Null, j)),
                None => None,
            }
        } else {
            match spec_scan_number(s, i) {
                None => None,
                Some(end) => Some(
                    (
                        match spec_parse_u32(s, i) {
                            Some(p) => if p.1 == end {
                                JsonValueView::NumU32(p.0)
                            } else {
                                JsonValueView::NumOther
                            },
                            None => JsonValueView::NumOther,
                        },
                        end,
                    ),
                ),
            }
        }
    }
}

/// The elements of an array from the first element on, up to and
/// including the closing bracket.
pub open spec fn spec_parse_elements(s: Seq<char>, i: int) -> Option<(Seq<JsonValueView>, int)>
    decreases s.len() - i, 1int,
        when 0 <= i <= s.len()
{
    match spec_parse_value(s, i) {
        None => None,
        Some((v, jv)) => if jv <= i || jv > s.len() {
            None
        } else {
            let j = spec_skip_ws(s, jv);
            if j < jv || j > s.len() {
                None
            } else if j < s.len() && s[j] == ']' {
                Some((seq![v], j + 1))
            } else if j < s.len() && s[j] == ',' {
                let j2 = spec_skip_ws(s, j + 1);
                if j2 <= i || j2 > s.len() {
                    None
                } else {
                    match spec_parse_elements(s, j2) {
                        None => None,
                        Some((rest, end)) => Some((seq![v] + rest, end)),
                    }
                }
            } else {
                None
            }
        },
    }
}

/// The members of an object from the first key on, up to and
/// including the closing brace.
pub open spec fn spec_parse_members(s: Seq<char>, i: int) -> Option<
    (Seq<(Seq<char>, JsonValueView)>, int),
>
    decreases s.len() - i, 1int,
        when 0 <= i <= s.len()
{
    if i >= s.len() || s[i] != '"' {
        None
    } else {
        match spec_parse_string_body(s, i + 1) {
            None => None,
            Some((key, jk)) => if jk <= i || jk > s.len() {
                None
            } else {
                let j = spec_skip_ws(s, jk);
                if j < jk || j > s.len() {
                    None
                } else if j < s.len() && s[j] == ':' {
                    let j2 = spec_skip_ws(s, j + 1);
                    if j2 <= i || j2 > s.len() {
                        None
                    } else {
                        match spec_parse_value(s, j2) {
                            None => None,
                            Some((v, jv)) => if jv <= j2 || jv > s.len() {
                                None
                            } else {
                                let j3 = spec_skip_ws(s, jv);
                                if j3 < jv || j3 > s.len() {
                                    None
                                } else if j3 < s.len() && s[j3] == '}' {
                                    Some((seq![(key, v)], j3 + 1))
                                } else if j3 < s.len() && s[j3] == ',' {
                                    let j4 = spec_skip_ws(s, j3 + 1);
                                    if j4 <= i || j4 > s.len() {
                                        None
                                    } else {
                                        match spec_parse_members(s, j4) {
                                            None => None,
                                            Some((rest, end)) => Some(
                                                (seq![(key, v)] + rest, end),
                                            ),
                                        }
                                    }
                                } else {
                                    None
                                }
                            },
                        }
                    }
                } else {
                    None
                }
            },
        }
    }
}

/// A whole JSON document: one value with whitespace around it,
/// consuming the entire input.
pub open spec fn spec_parse_document(s: Seq<char>) -> Option<JsonValueView> {
    let i0 = spec_skip_ws(s, 0);
    if i0 < 0 || i0 > s.len() {
        None
    } else {
        match spec_parse_value(s, i0) {
            None => None,
            Some((v, j)) => if 0 <= j <= s.len() && spec_skip_ws(s, j) == s.len() {
                Some(v)
            } else {
                None
            },
        }
    }
}

/// Reads one JSON value at `i`.
#[verifier::rlimit(100)]
pub fn parse_value(v: &Vec<char>, i: usize) -> (r: Option<(JsonValue, usize)>)
    requires
        i <= v@.len(),
    ensures
        r matches Some(p) ==> spec_parse_value(v@, i as int) == Some(
            (spec_value_view(p.0), p.1 as int),
        ) && i < p.1 <= v@.len(),
        r is None ==> spec_parse_value(v@, i as int) is None,
    decreases v@.len() - i, 0int,
{
    let n = v.len();
    if i >= n {
        return None;
    }
    let c = v[i];
    if c == '"' {
        match parse_string(v, i) {
            Some(p) => Some((JsonValue::Str(p.0), p.1)),
            None => None,
        }
    } else if c == '{' {
        let mut j = skip_ws(v, i + 1);
        if j < n && v[j] == '}' {
            let ms: Vec<(String, JsonValue)> = Vec::new();
            proof {
                assert(spec_members_view(ms@) =~= Seq::<(Seq<char>, JsonValueView)>::empty());
            }
            return Some((JsonValue::Obj(ms), j + 1));
        }
        let mut ms: Vec<(String, JsonValue)> = Vec::new();
        proof {
            assert(spec_members_view(ms@) =~= Seq::<(Seq<char>, JsonValueView)>::empty());
            match spec_parse_members(v@, j as int) {
                None => {},
                Some(q) => {
                    assert(spec_members_view(ms@) + q.0 =~= q.0);
                },
            }
        }
        loop
            invariant
                i < j <= n,
                n == v@.len(),
                v@[i as int] == '{',
                ({
                    match spec_parse_members(v@, j as int) {
                        None => spec_parse_value(v@, i as int) is None,
                        Some(q) => spec_parse_value(v@, i as int) matches Some(t) && t.0
                            == JsonValueView::Obj(spec_members_view(ms@) + q.0) && t.1 == q.1,
                    }
                }),
            decreases n - j,
        {
            let (key, jk) = match parse_string(v, j) {
                Some(p) => p,
                None => {
                    return None;
                },
            };
            let j2 = skip_ws(v, jk);
            if j2 >= n || v[j2] != ':' {
                return None;
            }
            let j3 = skip_ws(v, j2 + 1);
            let (val, jv) = match parse_value(v, j3) {
                Some(p) => p,
                None => {
                    return None;
                },
            };
            let j4 = skip_ws(v, jv);
            let ghost kv = (key@, spec_value_view(val));
            let ghost ms0 = ms@;
            ms.push((key, val));
            proof {
                assert(ms@.drop_last() =~= ms0);
                assert(spec_members_view(ms@) =~= spec_members_view(ms0).push(kv));
            }
            if j4 < n && v[j4] == '}' {
                proof {
                    assert(spec_parse_members(v@, j as int) == Some((seq![kv], j4 + 1)));
                    assert(spec_members_view(ms0) + seq![kv] =~= spec_members_view(ms@));
                }
                return Some((JsonValue::Obj(ms), j4 + 1));
            }
            if j4 >= n || v[j4] != ',' {
                return None;
            }
            let j5 = skip_ws(v, j4 + 1);
            proof {
                match spec_parse_members(v@, j5 as int) {
                    None => {
                        assert(spec_parse_members(v@, j as int) is None);
                    },
                    Some(q2) => {
                        assert(spec_parse_members(v@, j as int) == Some((seq![kv] + q2.0, q2.1)));
                        assert(spec_members_view(ms0) + (seq![kv] + q2.0) =~= spec_members_view(
                            ms@,
                        ) + q2.0);
                    },
                }
            }
            j = j5;
        }
    } else if c == '[' {
        let mut j = skip_ws(v, i + 1);
        if j < n && v[j] == ']' {
            let es: Vec<JsonValue> = Vec::new();
            proof {
                assert(spec_values_view(es@) =~= Seq::<JsonValueView>::empty());
            }
            return Some((JsonValue::Arr(es), j + 1));
        }
        let mut es: Vec<JsonValue> = Vec::new();
        proof {
            assert(spec_values_view(es@) =~= Seq::<JsonValueView>::empty());
            match spec_parse_elements(v@, j as int) {
                None => {},
                Some(q) => {
                    assert(spec_values_view(es@) + q.0 =~= q.0);
                },
            }
        }
        loop
            invariant
                i < j <= n,
                n == v@.len(),
                v@[i as int] == '[',
                ({
                    match spec_parse_elements(v@, j as int) {
                        None => spec_parse_value(v@, i as int) is None,
                        Some(q) => spec_parse_value(v@, i as int) matches Some(t) && t.0
                            == JsonValueView::Arr(spec_values_view(es@) + q.0) && t.1 == q.1,
                    }
                }),
            decreases n - j,
        {
            let (val, jv) = match parse_value(v, j) {
                Some(p) => p,
                None => {
                    return None;
                },
            };
            let j2 = skip_ws(v, jv);
            let ghost ev = spec_value_view(val);
            let ghost es0 = es@;
            es.push(val);
            proof {
                assert(es@.drop_last() =~= es0);
                assert(spec_values_view(es@) =~= spec_values_view(es0).push(ev));
            }
            if j2 < n && v[j2] == ']' {
                proof {
                    assert(spec_parse_elements(v@, j as int) == Some((seq![ev], j2 + 1)));
                    assert(spec_values_view(es0) + seq![ev] =~= spec_values_view(es@));
                }
                return Some((JsonValue::Arr(es), j2 + 1));
            }
            if j2 >= n || v[j2] != ',' {
                return None;
            }
            let j3 = skip_ws(v, j2 + 1);
            proof {
                match spec_parse_elements(v@, j3 as int) {
                    None => {
                        assert(spec_parse_elements(v@, j as int) is None);
                    },
                    Some(q2) => {
                        assert(spec_parse_elements(v@, j as int) == Some((seq![ev] + q2.0, q2.1)));
                        assert(spec_values_view(es0) + (seq![ev] + q2.0) =~= spec_values_view(es@)
                            + q2.0);
                    },
                }
            }
            j = j3;
        }
    } else if c == 't' {
        match expect_lit(v, i, "true") {
            Some(j) => {
                proof {
                    reveal_strlit("true");
                }
                Some((JsonValue::Bool(true), j))
            },
            None => None,
        }
    } else if c == 'f' {
        match expect_lit(v, i, "false") {
            Some(j) => {
                proof {
                    reveal_strlit("false");
                }
                Some((JsonValue::Bool(false), j))
            },
            None => None,
        }
    } else if c == 'n' {
        match expect_lit(v, i, "null") {
            Some(j) => {
                proof {
                    reveal_strlit("null");
                }
                Some((JsonValue::Null, j))
            },
            None => None,
        }
    } else {
        let end = match scan_number(v, i) {
            Some(e) => e,
            None => {
                return None;
            },
        };
        match parse_u32(v, i) {
            Some(p) => if p.1 == end {
                Some((JsonValue::NumU32(p.0), end))
            } else {
                Some((JsonValue::NumOther, end))
            },
            None => Some((JsonValue::NumOther, end)),
        }
    }
}

/// Reads a whole JSON document, whitespace around the value allowed.
pub fn parse_document(v: &Vec<char>) -> (r: Option<JsonValue>)
    ensures
        r matches Some(d) ==> spec_parse_document(v@) == Some(spec_value_view(d)),
        r is None ==> spec_parse_document(v@) is None,
{
    let i0 = skip_ws(v, 0);
    match parse_value(v, i0) {
        None => None,
        Some((val, j)) => {
            let j2 = skip_ws(v, j);
            if j2 == v.len() {
                Some(val)
            } else {
                None
            }
        },
    }
}

/// How often `key` occurs among an object's members.
pub open spec fn spec_count_key(ms: Seq<(Seq<char>, JsonValueView)>, key: Seq<char>) -> nat
    decreases ms.len(),
{
    if ms.len() == 0 {
        0
    } else {
        spec_count_key(ms.drop_last(), key) + (if ms.last().0 == key {
            1nat
        } else {
            0nat
        })
    }
}

/// The value of the last member named `key`.
pub open spec fn spec_find_key(ms: Seq<(Seq<char>, JsonValueView)>, key: Seq<char>) -> Option<
    JsonValueView,
>
    decreases ms.len(),
{
    if ms.len() == 0 {
        None
    } else if ms.last().0 == key {
        Some(ms.last().1)
    } else {
        spec_find_key(ms.drop_last(), key)
    }
}

/// The value of `key` where the object holds it exactly once; a
/// missing or repeated member yields nothing, as the schema decoder
/// refuses both.
pub open spec fn spec_get_unique(ms: Seq<(Seq<char>, JsonValueView)>, key: Seq<char>) -> Option<
    JsonValueView,
> {
    if spec_count_key(ms, key) == 1 {
        spec_find_key(ms, key)
    } else {
        None
    }
}

/// Compares two string slices character by character.
pub fn str_eq(a: &str, b: &str) -> (r: bool)
    ensures
        r == (a@ == b@),
{
    let v = to_chars(a);
    let n = b.unicode_len();
    if v.len() != n {
        proof {
            if a@ == b@ {
                assert(a@.len() == b@.len());
            }
        }
        return false;
    }
    let ok = match_at(&v, 0, b);
    proof {
        if ok {
            assert(a@ =~= b@) by {
                assert(v@.subrange(0, b@.len() as int) =~= v@);
            }
        }
        if a@ == b@ {
            assert(spec_match_at(v@, 0, b@)) by {
                assert(v@.subrange(0, b@.len() as int) =~= b@);
            }
        }
    }
    ok
}

/// Finds the position of the member named `key`, where it is unique.
pub fn get_unique(ms: &Vec<(String, JsonValue)>, key: &str) -> (r: Option<usize>)
    ensures
        r matches Some(t) ==> t < ms@.len() && spec_get_unique(spec_members_view(ms@), key@)
            == Some(spec_value_view(ms@[t as int].1)),
        r is None ==> spec_get_unique(spec_members_view(ms@), key@) is None,
{
    let ghost mv = spec_members_view(ms@);
    proof {
        lemma_members_view_len_index(ms@);
    }
    let n = ms.len();
    let mut k: usize = 0;
    let mut count: usize = 0;
    let mut found: usize = 0;
    while k < n
        invariant
            k <= n,
            n == ms@.len(),
            mv == spec_members_view(ms@),
            mv.len() == n,
            forall|t: int|
                0 <= t < n ==> #[trigger] mv[t] == (ms@[t].0@, spec_value_view(ms@[t].1)),
            count as nat == spec_count_key(mv.take(k as int), key@),
            count <= k,
            count > 0 ==> found < k && spec_find_key(mv.take(k as int), key@) == Some(
                mv[found as int].1,
            ),
        decreases n - k,
    {
        let hit = str_eq(ms[k].0.as_str(), key);
        proof {
            assert(mv.take(k + 1).drop_last() =~= mv.take(k as int));
            assert(mv.take(k + 1).last() == mv[k as int]);
        }
        if hit {
            count = count + 1;
            found = k;
        }
        k = k + 1;
    }
    proof {
        assert(mv.take(n as int) =~= mv);
    }
    if count == 1 {
        Some(found)
    } else {
        None
    }
}

/// Says whether any member is named `key`.
pub fn has_key(ms: &Vec<(String, JsonValue)>, key: &str) -> (r: bool)
    ensures
        r == (spec_count_key(spec_members_view(ms@), key@) > 0),
{
    let ghost mv = spec_members_view(ms@);
    proof {
        lemma_members_view_len_index(ms@);
    }
    let n = ms.len();
    let mut k: usize = 0;
    while k < n
        invariant
            k <= n,
            n == ms@.len(),
            mv == spec_members_view(ms@),
            mv.len() == n,
            forall|t: int|
                0 <= t < n ==> #[trigger] mv[t] == (ms@[t].0@, spec_value_view(ms@[t].1)),
            spec_count_key(mv.take(k as int), key@) == 0,
        decreases n - k,
    {
        let hit = str_eq(ms[k].0.as_str(), key);
        proof {
            assert(mv.take(k + 1).drop_last() =~= mv.take(k as int));
            assert(mv.take(k + 1).last() == mv[k as int]);
        }
        if hit {
            proof {
                lemma_count_key_from_prefix(mv, key@, k as int);
            }
            return true;
        }
        k = k + 1;
    }
    proof {
        assert(mv.take(n as int) =~= mv);
    }
    false
}

/// A key seen at one position keeps the whole count positive.
proof fn lemma_count_key_from_prefix(ms: Seq<(Seq<char>, JsonValueView)>, key: Seq<char>, t: int)
    requires
        0 <= t < ms.len(),
        ms[t].0 == key,
    ensures
        spec_count_key(ms, key) > 0,
    decreases ms.len(),
{
    if t == ms.len() - 1 {
    } else {
        assert(ms.drop_last()[t] == ms[t]);
        lemma_count_key_from_prefix(ms.drop_last(), key, t);
    }
}

} // verus!
