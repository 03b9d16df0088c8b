//! The `json` namespace of the host-import surface: a recursive-descent
//! JSON parser producing the typed value variant, and a serializer for
//! the JSON-expressible values. Integers that fit a signed 64-bit word
//! become `Int`; every other numeric token becomes `Float`, whose bit
//! pattern serde_json's number conversion supplies. Malformed input
//! yields the failure sentinel, never a fault.

use vstd::prelude::*;
use crate::store::GlobalStore;
use crate::text::{str_to_chars, string_from_chars};
use crate::value::{
    obj_keys_unique, obj_lookup, pair_vals_of, vals_of, wf_val, Val, Value,
    lemma_pair_vals_of, lemma_vals_of,
};

verus! {

/// Whether a character is JSON whitespace.
pub open spec fn is_ws(c: char) -> bool {
    c == ' ' || c == '\n' || c == '\r' || c == '\t'
}

/// The first position at or after `i` holding no whitespace, at most the
/// end of the input.
pub open spec fn spec_skip_ws(s: Seq<char>, i: int) -> int
    decreases s.len() - i,
{
    if 0 <= i < s.len() && is_ws(s[i]) {
        spec_skip_ws(s, i + 1)
    } else {
        i
    }
}

/// Skipping whitespace only moves forward, to the end at most.
pub proof fn lemma_skip_ws_bounds(s: Seq<char>, i: int)
    requires
        0 <= i <= s.len(),
    ensures
        i <= spec_skip_ws(s, i) <= s.len(),
    decreases s.len() - i,
{
    if i < s.len() && is_ws(s[i]) {
        lemma_skip_ws_bounds(s, i + 1);
    }
}

fn skip_ws(chars: &Vec<char>, i: usize) -> (r: usize)
    requires
        i <= chars@.len(),
    ensures
        r == spec_skip_ws(chars@, i as int),
        i <= r <= chars@.len(),
    decreases chars@.len() - i,
{
    if i < chars.len() {
        let c = chars[i];
        if c == ' ' || c == '\n' || c == '\r' || c == '\t' {
            return skip_ws(chars, i + 1);
        }
    }
    i
}

/// The value of a hexadecimal digit, or -1.
pub open spec fn hex_val(c: char) -> int {
    let u = c as u32;
    if 48 <= u && u <= 57 {
        u - 48
    } else if 97 <= u && u <= 102 {
        u - 87
    } else if 65 <= u && u <= 70 {
        u - 55
    } else {
        -1
    }
}

/// The value of the four hexadecimal digits at `i`, or -1.
pub open spec fn hex4(s: Seq<char>, i: int) -> int {
    if 0 <= i && i + 4 <= s.len() && hex_val(s[i]) >= 0 && hex_val(s[i + 1]) >= 0 && hex_val(
        s[i + 2],
    ) >= 0 && hex_val(s[i + 3]) >= 0 {
        hex_val(s[i]) * 4096 + hex_val(s[i + 1]) * 256 + hex_val(s[i + 2]) * 16 + hex_val(s[i + 3])
    } else {
        -1
    }
}

fn hex_digit(c: char) -> (r: i32)
    ensures
        r as int == hex_val(c),
{
    let u = c as u32;
    if 48 <= u && u <= 57 {
        (u - 48) as i32
    } else if 97 <= u && u <= 102 {
        (u - 87) as i32
    } else if 65 <= u && u <= 70 {
        (u - 55) as i32
    } else {
        -1
    }
}

fn hex4_at(chars: &Vec<char>, i: usize) -> (r: i32)
    requires
        i <= chars@.len(),
    ensures
        r as int == hex4(chars@, i as int),
        r >= 0 ==> r < 0x10000,
{
    if chars.len() - i < 4 {
        return -1;
    }
    let h0 = hex_digit(chars[i]);
    let h1 = hex_digit(chars[i + 1]);
    let h2 = hex_digit(chars[i + 2]);
    let h3 = hex_digit(chars[i + 3]);
    if h0 >= 0 && h1 >= 0 && h2 >= 0 && h3 >= 0 {
        h0 * 4096 + h1 * 256 + h2 * 16 + h3
    } else {
        -1
    }
}

/// What a two-character escape decodes to, or nothing for an unknown
/// escape.
pub open spec fn escape_char(e: char) -> Option<char> {
    if e == '"' {
        Some('"')
    } else if e == '\\' {
        Some('\\')
    } else if e == '/' {
        Some('/')
    } else if e == 'b' {
        Some(8u32 as char)
    } else if e == 'f' {
        Some(12u32 as char)
    } else if e == 'n' {
        Some('\n')
    } else if e == 'r' {
        Some('\r')
    } else if e == 't' {
        Some('\t')
    } else {
        None
    }
}

/// Relies on `char::from_u32`: every unicode scalar value below the
/// surrogate range or above it is some character, the one with that code.
#[verifier::external_body]
fn char_from_code(c: u32) -> (r: char)
    requires
        c < 0xd800 || (0xe000 <= c && c <= 0x10ffff),
    ensures
        r == (c as char),
{
    char::from_u32(c).unwrap_or('\u{fffd}')
}

/// The body of a JSON string from position `i` (just after the opening
/// quote): the decoded characters and the position after the closing
/// quote. Escapes decode per JSON, `\u` escapes take surrogate pairs,
/// and a lone surrogate or a raw control character fails.
pub open spec fn spec_parse_string(s: Seq<char>, i: int) -> Option<(Seq<char>, int)>
    decreases s.len() - i,
{
    if i < 0 || i >= s.len() {
        None
    } else {
        let c = s[i];
        if c == '"' {
            Some((Seq::empty(), i + 1))
        } else if c == '\\' {
            if i + 1 >= s.len() {
                None
            } else {
                let e = s[i + 1];
                if e == 'u' {
                    let h = hex4(s, i + 2);
                    if h < 0 {
                        None
                    } else if 0xd800 <= h < 0xdc00 {
                        if i + 8 <= s.len() && s[i + 6] == '\\' && s[i + 7] == 'u' {
                            let l = hex4(s, i + 8);
                            if 0xdc00 <= l < 0xe000 {
                                let code = 0x10000 + (h - 0xd800) * 0x400 + (l - 0xdc00);
                                match spec_parse_string(s, i + 12) {
                                    Some(p) => Some((seq![(code as u32) as char] + p.0, p.1)),
                                    None => None,
                                }
                            } else {
                                None
                            }
                        } else {
                            None
                        }
                    } else if 0xdc00 <= h < 0xe000 {
                        None
                    } else {
                        match spec_parse_string(s, i + 6) {
                            Some(p) => Some((seq![(h as u32) as char] + p.0, p.1)),
                            None => None,
                        }
                    }
                } else {
                    match escape_char(e) {
                        Some(d) => match spec_parse_string(s, i + 2) {
                            Some(p) => Some((seq![d] + p.0, p.1)),
                            None => None,
                        },
                        None => None,
                    }
                }
            }
        } else if (c as u32) < 0x20 {
            None
        } else {
            match spec_parse_string(s, i + 1) {
                Some(p) => Some((seq![c] + p.0, p.1)),
                None => None,
            }
        }
    }
}

/// A parsed string body ends after its opening position, at the end of
/// the input at most.
pub proof fn lemma_parse_string_bounds(s: Seq<char>, i: int)
    requires
        0 <= i,
    ensures
        match spec_parse_string(s, i) {
            Some(p) => i < p.1 <= s.len(),
            None => true,
        },
    decreases s.len() - i,
{
    if 0 <= i < s.len() {
        let c = s[i];
        if c == '\\' && i + 1 < s.len() {
            if s[i + 1] == 'u' {
                let h = hex4(s, i + 2);
                if h >= 0 && 0xd800 <= h < 0xdc00 {
                    if i + 8 <= s.len() && s[i + 6] == '\\' && s[i + 7] == 'u' && hex4(s, i + 8)
                        >= 0 {
                        lemma_parse_string_bounds(s, i + 12);
                    }
                } else if h >= 0 {
                    lemma_parse_string_bounds(s, i + 6);
                }
            } else {
                lemma_parse_string_bounds(s, i + 2);
            }
        } else if c != '"' {
            lemma_parse_string_bounds(s, i + 1);
        }
    }
}

fn parse_string_body(chars: &Vec<char>, i: usize) -> (r: Option<(Vec<char>, usize)>)
    requires
        i <= chars@.len(),
    ensures
        match spec_parse_string(chars@, i as int) {
            Some(p) => r is Some && (r->0).0@ == p.0 && (r->0).1 == p.1,
            None => r is None,
        },
    decreases chars@.len() - i,
{
    if i >= chars.len() {
        return None;
    }
    let c = chars[i];
    if c == '"' {
        return Some((Vec::new(), i + 1));
    }
    if c == '\\' {
        if i + 1 >= chars.len() {
            return None;
        }
        let e = chars[i + 1];
        if e == 'u' {
            let h = hex4_at(chars, i + 2);
            if h < 0 {
                return None;
            }
            if 0xd800 <= h && h < 0xdc00 {
                if chars.len() - i >= 8 && chars[i + 6] == '\\' && chars[i + 7] == 'u' {
                    let l = hex4_at(chars, i + 8);
                    if 0xdc00 <= l && l < 0xe000 {
                        let code: u32 = 0x10000 + (h as u32 - 0xd800) * 0x400 + (l as u32 - 0xdc00);
                        let d = char_from_code(code);
                        match parse_string_body(chars, i + 12) {
                            Some(p) => {
                                let mut body = p.0;
                                body.insert(0, d);
                                proof {
                                    assert(body@ =~= seq![(code as char)] + (spec_parse_string(
                                        chars@,
                                        i + 12,
                                    )->0).0);
                                }
                                return Some((body, p.1));
                            },
                            None => {
                                return None;
                            },
                        }
                    } else {
                        return None;
                    }
                } else {
                    return None;
                }
            }
            if 0xdc00 <= h && h < 0xe000 {
                return None;
            }
            let d = char_from_code(h as u32);
            match parse_string_body(chars, i + 6) {
                Some(p) => {
                    let mut body = p.0;
                    body.insert(0, d);
                    proof {
                        assert(body@ =~= seq![((h as u32) as char)] + (spec_parse_string(
                            chars@,
                            i + 6,
                        )->0).0);
                    }
                    return Some((body, p.1));
                },
                None => {
                    return None;
                },
            }
        }
        let decoded: char = if e == '"' {
            '"'
        } else if e == '\\' {
            '\\'
        } else if e == '/' {
            '/'
        } else if e == 'b' {
            char_from_code(8)
        } else if e == 'f' {
            char_from_code(12)
        } else if e == 'n' {
            '\n'
        } else if e == 'r' {
            '\r'
        } else if e == 't' {
            '\t'
        } else {
            return None;
        };
        proof {
            assert(escape_char(chars@[i as int + 1]) == Some(decoded));
        }
        match parse_string_body(chars, i + 2) {
            Some(p) => {
                let mut body = p.0;
                body.insert(0, decoded);
                proof {
                    assert(body@ =~= seq![decoded] + (spec_parse_string(chars@, i + 2)->0).0);
                }
                return Some((body, p.1));
            },
            None => {
                return None;
            },
        }
    }
    if (c as u32) < 0x20 {
        return None;
    }
    match parse_string_body(chars, i + 1) {
        Some(p) => {
            let mut body = p.0;
            body.insert(0, c);
            proof {
                assert(body@ =~= seq![c] + (spec_parse_string(chars@, i + 1)->0).0);
            }
            Some((body, p.1))
        },
        None => None,
    }
}

/// Whether a character is a decimal digit.
pub open spec fn is_digit(c: char) -> bool {
    48 <= (c as u32) && (c as u32) <= 57
}

/// The first position at or after `i` holding no digit.
pub open spec fn span_digits(s: Seq<char>, i: int) -> int
    decreases s.len() - i,
{
    if 0 <= i < s.len() && is_digit(s[i]) {
        span_digits(s, i + 1)
    } else {
        i
    }
}

/// A digit span only moves forward, to the end at most.
pub proof fn lemma_span_digits_bounds(s: Seq<char>, i: int)
    requires
        0 <= i <= s.len(),
    ensures
        i <= span_digits(s, i) <= s.len(),
        forall|k: int| i <= k < span_digits(s, i) ==> is_digit(s[k]),
    decreases s.len() - i,
{
    if i < s.len() && is_digit(s[i]) {
        lemma_span_digits_bounds(s, i + 1);
    }
}

fn span_digits_at(chars: &Vec<char>, i: usize) -> (r: usize)
    requires
        i <= chars@.len(),
    ensures
        r == span_digits(chars@, i as int),
        i <= r <= chars@.len(),
    decreases chars@.len() - i,
{
    if i < chars.len() {
        let u = chars[i] as u32;
        if 48 <= u && u <= 57 {
            return span_digits_at(chars, i + 1);
        }
    }
    i
}

/// The number the digits of `s[i..j]` denote, most significant first.
pub open spec fn digits_val(s: Seq<char>, i: int, j: int) -> int
    decreases j - i,
{
    if j <= i {
        0
    } else {
        digits_val(s, i, j - 1) * 10 + (s[j - 1] as u32) - 48
    }
}

/// The 64-bit pattern of the number a JSON number token denotes, as
/// serde_json's number conversion gives it; zero for a token serde_json
/// rejects. The result depends on the token alone.
pub uninterp spec fn json_number_bits(tok: Seq<char>) -> u64;

/// Relies on `serde_json::Number`'s string parsing and `as_f64`: the
/// nearest 64-bit value of the number the token denotes, zero for a
/// rejected token; it depends on the token alone.
#[verifier::external_body]
fn number_bits(tok: &str) -> (r: u64)
    ensures
        r == json_number_bits(tok@),
{
    let n: Result<serde_json::Number, serde_json::Error> = serde_json::from_str(tok);
    match n {
        Ok(n) => n.as_f64().map(|x| x.to_bits()).unwrap_or(0),
        Err(_) => 0,
    }
}

/// Ten to the power `n`.
pub open spec fn pow10(n: nat) -> int
    decreases n,
{
    if n == 0 {
        1
    } else {
        10 * pow10((n - 1) as nat)
    }
}

/// The value of a digit span is bounded by ten to its length.
pub proof fn lemma_digits_val_bound(s: Seq<char>, i: int, j: int)
    requires
        0 <= i <= j <= s.len(),
        forall|k: int| i <= k < j ==> is_digit(s[k]),
    ensures
        0 <= digits_val(s, i, j) < pow10((j - i) as nat),
    decreases j - i,
{
    if j > i {
        lemma_digits_val_bound(s, i, j - 1);
    }
}

/// The first nineteen powers of ten, written out.
pub proof fn lemma_pow10_19()
    ensures
        pow10(18) == 1000000000000000000,
        pow10(19) == 10000000000000000000,
{
    assert(pow10(0) == 1);
    assert(pow10(1) == 10);
    assert(pow10(2) == 100);
    assert(pow10(3) == 1000);
    assert(pow10(4) == 10000);
    assert(pow10(5) == 100000);
    assert(pow10(6) == 1000000);
    assert(pow10(7) == 10000000);
    assert(pow10(8) == 100000000);
    assert(pow10(9) == 1000000000);
    assert(pow10(10) == 10000000000);
    assert(pow10(11) == 100000000000);
    assert(pow10(12) == 1000000000000);
    assert(pow10(13) == 10000000000000);
    assert(pow10(14) == 100000000000000);
    assert(pow10(15) == 1000000000000000);
    assert(pow10(16) == 10000000000000000);
    assert(pow10(17) == 100000000000000000);
    assert(pow10(18) == 1000000000000000000);
    assert(pow10(19) == 10000000000000000000);
}

fn is_digit_at(chars: &Vec<char>, i: usize) -> (r: bool)
    requires
        i < chars@.len(),
    ensures
        r == is_digit(chars@[i as int]),
{
    let u = chars[i] as u32;
    48 <= u && u <= 57
}

/// Parses the number token at `i`, if any.
fn parse_number_at(chars: &Vec<char>, i: usize) -> (r: Option<(Value, usize)>)
    requires
        i <= chars@.len(),
    ensures
        match spec_parse_number(chars@, i as int) {
            Some(p) => r is Some && (r->0).0@ == p.0 && (r->0).1 == p.1 && wf_val(p.0) && p.1
                <= chars@.len(),
            None => r is None,
        },
{
    if i >= chars.len() {
        return None;
    }
    let neg = chars[i] == '-';
    let d0 = if neg {
        i + 1
    } else {
        i
    };
    if d0 >= chars.len() {
        return None;
    }
    if !is_digit_at(chars, d0) {
        return None;
    }
    let c0_zero = chars[d0] == '0';
    let int_end = if c0_zero {
        d0 + 1
    } else {
        span_digits_at(chars, d0)
    };
    proof {
        lemma_span_digits_bounds(chars@, d0 as int);
    }
    if c0_zero && int_end < chars.len() && is_digit_at(chars, int_end) {
        return None;
    }
    let has_dot = int_end < chars.len() && chars[int_end] == '.';
    let frac_end = if has_dot {
        span_digits_at(chars, int_end + 1)
    } else {
        int_end
    };
    if has_dot && frac_end == int_end + 1 {
        return None;
    }
    let has_exp = frac_end < chars.len() && (chars[frac_end] == 'e' || chars[frac_end] == 'E');
    let exp_end: usize = if has_exp {
        let sgn = if frac_end + 1 < chars.len() && (chars[frac_end + 1] == '+' || chars[frac_end
            + 1] == '-') {
            frac_end + 2
        } else {
            frac_end + 1
        };
        if sgn > chars.len() {
            return None;
        }
        let e_end = span_digits_at(chars, sgn);
        if e_end == sgn {
            return None;
        }
        e_end
    } else {
        frac_end
    };
    proof {
        assert(spec_exp_end(chars@, frac_end as int) == exp_end as int);
    }
    if exp_end == int_end {
        let dlen = int_end - d0;
        proof {
            lemma_span_digits_bounds(chars@, d0 as int);
        }
        if dlen <= 19 {
            let mut acc: u128 = 0;
            let mut k = d0;
            while k < int_end
                invariant
                    d0 <= k <= int_end <= chars@.len(),
                    int_end - d0 <= 19,
                    forall|m: int| d0 <= m < int_end ==> is_digit(chars@[m]),
                    acc == digits_val(chars@, d0 as int, k as int),
                decreases int_end - k,
            {
                proof {
                    lemma_digits_val_bound(chars@, d0 as int, k as int);
                    lemma_pow10_19();
                    lemma_pow10_mono((k - d0) as nat, 18);
                }
                acc = acc * 10 + (chars[k] as u32 - 48) as u128;
                k += 1;
            }
            proof {
                lemma_digits_val_bound(chars@, d0 as int, int_end as int);
                lemma_pow10_19();
                lemma_pow10_mono((int_end - d0) as nat, 19);
            }
            let fits: bool = dlen <= 18 || (dlen == 19 && ((neg && acc <= 0x8000000000000000u128)
                || (!neg && acc <= 0x7fffffffffffffffu128)));
            if fits {
                proof {
                    lemma_digits_val_bound(chars@, d0 as int, int_end as int);
                    lemma_pow10_19();
                    if int_end - d0 <= 18 {
                        lemma_pow10_mono((int_end - d0) as nat, 18);
                    }
                    assert(neg ==> acc <= 0x8000000000000000u128);
                    assert(!neg ==> acc <= 0x7fffffffffffffffu128);
                }
                let value: i64 = if neg {
                    if acc == 0x8000000000000000u128 {
                        i64::MIN
                    } else {
                        -(acc as i64)
                    }
                } else {
                    acc as i64
                };
                return Some((Value::Int(value), int_end));
            }
        }
        let mut tok: Vec<char> = Vec::new();
        let mut k = i;
        while k < int_end
            invariant
                i <= k <= int_end <= chars@.len(),
                tok@ =~= chars@.subrange(i as int, k as int),
            decreases int_end - k,
        {
            tok.push(chars[k]);
            k += 1;
        }
        proof {
            assert(tok@ =~= chars@.subrange(i as int, int_end as int));
        }
        let tok_string = string_from_chars(&tok);
        let bits = number_bits(tok_string.as_str());
        return Some((Value::Float(bits), int_end));
    }
    let mut tok: Vec<char> = Vec::new();
    let mut k = i;
    while k < exp_end
        invariant
            i <= k <= exp_end <= chars@.len(),
            tok@ =~= chars@.subrange(i as int, k as int),
        decreases exp_end - k,
    {
        tok.push(chars[k]);
        k += 1;
    }
    proof {
        assert(tok@ =~= chars@.subrange(i as int, exp_end as int));
    }
    let tok_string = string_from_chars(&tok);
    let bits = number_bits(tok_string.as_str());
    Some((Value::Float(bits), exp_end))
}

/// Powers of ten do not shrink as the exponent grows.
pub proof fn lemma_pow10_mono(a: nat, b: nat)
    requires
        a <= b,
    ensures
        pow10(a) <= pow10(b),
        pow10(a) >= 1,
    decreases b,
{
    if a < b {
        lemma_pow10_mono(a, (b - 1) as nat);
    } else if a == b && b > 0 {
        lemma_pow10_mono((a - 1) as nat, (b - 1) as nat);
    }
}

/// A JSON number starting at `i`: an optional minus, an integer part
/// with no leading zero, an optional fraction and an optional exponent.
/// An integer token whose value fits a signed 64-bit word becomes `Int`;
/// every other token becomes `Float` with serde_json's 64-bit pattern.
pub open spec fn spec_parse_number(s: Seq<char>, i: int) -> Option<(Val, int)> {
    if i < 0 || i >= s.len() {
        None
    } else {
        let neg = s[i] == '-';
        let d0 = if neg {
            i + 1
        } else {
            i
        };
        if d0 >= s.len() || !is_digit(s[d0]) {
            None
        } else {
            let int_end = if s[d0] == '0' {
                d0 + 1
            } else {
                span_digits(s, d0)
            };
            if s[d0] == '0' && int_end < s.len() && is_digit(s[int_end]) {
                None
            } else {
                let frac_end = if int_end < s.len() && s[int_end] == '.' {
                    span_digits(s, int_end + 1)
                } else {
                    int_end
                };
                if int_end < s.len() && s[int_end] == '.' && frac_end == int_end + 1 {
                    None
                } else {
                    let exp_ok_end = spec_exp_end(s, frac_end);
                    if exp_ok_end < 0 {
                        None
                    } else {
                        let has_frac = frac_end != int_end;
                        let has_exp = exp_ok_end != frac_end;
                        if !has_frac && !has_exp {
                            let dlen = int_end - d0;
                            let v = digits_val(s, d0, int_end);
                            let fits = dlen <= 18 || (dlen == 19 && ((neg && v
                                <= 0x8000000000000000) || (!neg && v <= 0x7fffffffffffffff)));
                            if fits {
                                Some(
                                    (
                                        Val::Int(
                                            (if neg {
                                                -v
                                            } else {
                                                v
                                            }) as i64,
                                        ),
                                        int_end,
                                    ),
                                )
                            } else {
                                Some(
                                    (Val::Float(json_number_bits(s.subrange(i, int_end))), int_end),
                                )
                            }
                        } else {
                            Some(
                                (
                                    Val::Float(json_number_bits(s.subrange(i, exp_ok_end))),
                                    exp_ok_end,
                                ),
                            )
                        }
                    }
                }
            }
        }
    }
}

/// The end of an optional exponent part starting at `i`, or -1 when an
/// exponent marker has no digits.
pub open spec fn spec_exp_end(s: Seq<char>, i: int) -> int {
    if 0 <= i < s.len() && (s[i] == 'e' || s[i] == 'E') {
        let sgn = if i + 1 < s.len() && (s[i + 1] == '+' || s[i + 1] == '-') {
            i + 2
        } else {
            i + 1
        };
        let e_end = span_digits(s, sgn);
        if e_end == sgn {
            -1
        } else {
            e_end
        }
    } else {
        i
    }
}

/// A member joins the members after it: a duplicate key is dropped in
/// favour of the later pair, a fresh key goes in front.
pub open spec fn member_combine(
    k: Seq<char>,
    v: Val,
    rest: Seq<(Seq<char>, Val)>,
) -> Seq<(Seq<char>, Val)> {
    if obj_lookup(rest, k) is Some {
        rest
    } else {
        seq![(k, v)] + rest
    }
}

/// A JSON value starting at `i`, after whitespace: a literal, a string,
/// a number, an array or an object, with the position after it. The fuel
/// bounds the recursion depth; the document parser supplies enough for
/// any input it accepts.
pub open spec fn spec_parse_value(s: Seq<char>, i: int, fuel: nat) -> Option<(Val, int)>
    decreases fuel,
{
    if fuel == 0 {
        None
    } else {
        let j = spec_skip_ws(s, i);
        if j < 0 || j >= s.len() {
            None
        } else {
            let c = s[j];
            if c == 'n' {
                if j + 4 <= s.len() && s[j + 1] == 'u' && s[j + 2] == 'l' && s[j + 3] == 'l' {
                    Some((Val::Null, j + 4))
                } else {
                    None
                }
            } else if c == 't' {
                if j + 4 <= s.len() && s[j + 1] == 'r' && s[j + 2] == 'u' && s[j + 3] == 'e' {
                    Some((Val::Bool(true), j + 4))
                } else {
                    None
                }
            } else if c == 'f' {
                if j + 5 <= s.len() && s[j + 1] == 'a' && s[j + 2] == 'l' && s[j + 3] == 's' && s[j
                    + 4] == 'e' {
                    Some((Val::Bool(false), j + 5))
                } else {
                    None
                }
            } else if c == '"' {
                match spec_parse_string(s, j + 1) {
                    Some(p) => Some((Val::Str(p.0), p.1)),
                    None => None,
                }
            } else if c == '[' {
                match spec_parse_elems(s, j + 1, true, (fuel - 1) as nat) {
                    Some(p) => Some((Val::Array(p.0), p.1)),
                    None => None,
                }
            } else if c == '{' {
                match spec_parse_members(s, j + 1, true, (fuel - 1) as nat) {
                    Some(p) => Some((Val::Object(p.0), p.1)),
                    None => None,
                }
            } else {
                spec_parse_number(s, j)
            }
        }
    }
}

/// The elements of an array from `i` (just after `[` or a comma):
/// `allow_end` admits an immediately closing bracket.
pub open spec fn spec_parse_elems(s: Seq<char>, i: int, allow_end: bool, fuel: nat) -> Option<
    (Seq<Val>, int),
>
    decreases fuel,
{
    if fuel == 0 {
        None
    } else {
        let j = spec_skip_ws(s, i);
        if j < 0 || j >= s.len() {
            None
        } else if s[j] == ']' && allow_end {
            Some((Seq::empty(), j + 1))
        } else {
            match spec_parse_value(s, j, (fuel - 1) as nat) {
                Some(vp) => {
                    let k = spec_skip_ws(s, vp.1);
                    if 0 <= k < s.len() && s[k] == ',' {
                        match spec_parse_elems(s, k + 1, false, (fuel - 1) as nat) {
                            Some(rp) => Some((seq![vp.0] + rp.0, rp.1)),
                            None => None,
                        }
                    } else if 0 <= k < s.len() && s[k] == ']' {
                        Some((seq![vp.0], k + 1))
                    } else {
                        None
                    }
                },
                None => None,
            }
        }
    }
}

/// The members of an object from `i` (just after `{` or a comma):
/// `allow_end` admits an immediately closing brace. A later duplicate
/// key wins over an earlier one.
pub open spec fn spec_parse_members(s: Seq<char>, i: int, allow_end: bool, fuel: nat) -> Option<
    (Seq<(Seq<char>, Val)>, int),
>
    decreases fuel,
{
    if fuel == 0 {
        None
    } else {
        let j = spec_skip_ws(s, i);
        if j < 0 || j >= s.len() {
            None
        } else if s[j] == '}' && allow_end {
            Some((Seq::empty(), j + 1))
        } else if s[j] == '"' {
            match spec_parse_string(s, j + 1) {
                Some(kp) => {
                    let j2 = spec_skip_ws(s, kp.1);
                    if 0 <= j2 < s.len() && s[j2] == ':' {
                        match spec_parse_value(s, j2 + 1, (fuel - 1) as nat) {
                            Some(vp) => {
                                let j3 = spec_skip_ws(s, vp.1);
                                if 0 <= j3 < s.len() && s[j3] == ',' {
                                    match spec_parse_members(s, j3 + 1, false, (fuel - 1) as nat) {
                                        Some(rp) => Some((member_combine(kp.0, vp.0, rp.0), rp.1)),
                                        None => None,
                                    }
                                } else if 0 <= j3 < s.len() && s[j3] == '}' {
                                    Some((seq![(kp.0, vp.0)], j3 + 1))
                                } else {
                                    None
                                }
                            },
                            None => None,
                        }
                    } else {
                        None
                    }
                },
                None => None,
            }
        } else {
            None
        }
    }
}

/// Parses the value at `i`.
fn parse_value_at(chars: &Vec<char>, i: usize, fuel: u64) -> (r: Option<(Value, usize)>)
    requires
        i <= chars@.len(),
    ensures
        match spec_parse_value(chars@, i as int, fuel as nat) {
            Some(p) => r is Some && (r->0).0@ == p.0 && (r->0).1 == p.1 && wf_val(p.0) && p.1
                <= chars@.len(),
            None => r is None,
        },
    decreases fuel,
{
    if fuel == 0 {
        return None;
    }
    let j = skip_ws(chars, i);
    if j >= chars.len() {
        return None;
    }
    let c = chars[j];
    if c == 'n' {
        if chars.len() - j >= 4 && chars[j + 1] == 'u' && chars[j + 2] == 'l' && chars[j + 3]
            == 'l' {
            Some((Value::Null, j + 4))
        } else {
            None
        }
    } else if c == 't' {
        if chars.len() - j >= 4 && chars[j + 1] == 'r' && chars[j + 2] == 'u' && chars[j + 3]
            == 'e' {
            Some((Value::Bool(true), j + 4))
        } else {
            None
        }
    } else if c == 'f' {
        if chars.len() - j >= 5 && chars[j + 1] == 'a' && chars[j + 2] == 'l' && chars[j + 3] == 's'
            && chars[j + 4] == 'e' {
            Some((Value::Bool(false), j + 5))
        } else {
            None
        }
    } else if c == '"' {
        proof {
            lemma_parse_string_bounds(chars@, j + 1);
        }
        match parse_string_body(chars, j + 1) {
            Some(p) => Some((Value::Str(string_from_chars(&p.0)), p.1)),
            None => None,
        }
    } else if c == '[' {
        match parse_elems_at(chars, j + 1, true, fuel - 1) {
            Some(p) => {
                let arr = Value::Array(p.0);
                proof {
                    lemma_vals_of(arr->Array_0@);
                    assert(arr@->Array_0 =~= (spec_parse_elems(
                        chars@,
                        j + 1,
                        true,
                        (fuel - 1) as nat,
                    )->0).0);
                }
                Some((arr, p.1))
            },
            None => None,
        }
    } else if c == '{' {
        match parse_members_at(chars, j + 1, true, fuel - 1) {
            Some(p) => {
                let obj = Value::Object(p.0);
                proof {
                    lemma_pair_vals_of(obj->Object_0@);
                    assert(obj@->Object_0 =~= (spec_parse_members(
                        chars@,
                        j + 1,
                        true,
                        (fuel - 1) as nat,
                    )->0).0);
                }
                Some((obj, p.1))
            },
            None => None,
        }
    } else {
        parse_number_at(chars, j)
    }
}

/// Parses array elements at `i`.
#[verifier::rlimit(60)]
fn parse_elems_at(chars: &Vec<char>, i: usize, allow_end: bool, fuel: u64) -> (r: Option<
    (Vec<Value>, usize),
>)
    requires
        i <= chars@.len(),
    ensures
        match spec_parse_elems(chars@, i as int, allow_end, fuel as nat) {
            Some(p) => r is Some && vals_of((r->0).0@) == p.0 && (r->0).1 == p.1 && wf_val(
                Val::Array(p.0),
            ) && p.1 <= chars@.len(),
            None => r is None,
        },
    decreases fuel,
{
    if fuel == 0 {
        return None;
    }
    let j = skip_ws(chars, i);
    if j >= chars.len() {
        return None;
    }
    if chars[j] == ']' && allow_end {
        let out: Vec<Value> = Vec::new();
        proof {
            lemma_vals_of(out@);
            assert(vals_of(out@) =~= Seq::<Val>::empty());
        }
        return Some((out, j + 1));
    }
    match parse_value_at(chars, j, fuel - 1) {
        Some(vp) => {
            let k = skip_ws(chars, vp.1);
            if k < chars.len() && chars[k] == ',' {
                match parse_elems_at(chars, k + 1, false, fuel - 1) {
                    Some(rp) => {
                        let mut out = rp.0;
                        let ghost rest_model = vals_of(out@);
                        let ghost old_items = out@;
                        let ghost vm = (spec_parse_value(chars@, j as int, (fuel - 1) as nat)->0).0;
                        out.insert(0, vp.0);
                        proof {
                            lemma_vals_of(old_items);
                            lemma_vals_of(out@);
                            assert(vals_of(out@) =~= seq![vm] + rest_model);
                            let full = seq![vm] + rest_model;
                            assert(wf_val(Val::Array(rest_model)));
                            assert(Val::Array(rest_model)->Array_0 == rest_model);
                            assert forall|m: int| 0 <= m < full.len() implies wf_val(
                                #[trigger] full[m],
                            ) by {
                                if m > 0 {
                                    assert(full[m] == rest_model[m - 1]);
                                    assert(wf_val(Val::Array(rest_model)->Array_0[m - 1]));
                                }
                            }
                            assert(wf_val(Val::Array(full)));
                        }
                        Some((out, rp.1))
                    },
                    None => None,
                }
            } else if k < chars.len() && chars[k] == ']' {
                let ghost vm = (spec_parse_value(chars@, j as int, (fuel - 1) as nat)->0).0;
                let mut out: Vec<Value> = Vec::new();
                out.push(vp.0);
                proof {
                    lemma_vals_of(out@);
                    assert(vals_of(out@) =~= seq![vm]);
                    let full = seq![vm];
                    assert forall|m: int| 0 <= m < full.len() implies wf_val(
                        #[trigger] full[m],
                    ) by {
                        assert(full[m] == vm);
                    }
                    assert(wf_val(Val::Array(full)));
                }
                Some((out, k + 1))
            } else {
                None
            }
        },
        None => None,
    }
}

/// Parses object members at `i`.
#[verifier::rlimit(60)]
fn parse_members_at(chars: &Vec<char>, i: usize, allow_end: bool, fuel: u64) -> (r: Option<
    (Vec<(String, Value)>, usize),
>)
    requires
        i <= chars@.len(),
    ensures
        match spec_parse_members(chars@, i as int, allow_end, fuel as nat) {
            Some(p) => r is Some && pair_vals_of((r->0).0@) == p.0 && (r->0).1 == p.1 && wf_val(
                Val::Object(p.0),
            ) && p.1 <= chars@.len(),
            None => r is None,
        },
    decreases fuel,
{
    if fuel == 0 {
        return None;
    }
    let j = skip_ws(chars, i);
    if j >= chars.len() {
        return None;
    }
    if chars[j] == '}' && allow_end {
        let out: Vec<(String, Value)> = Vec::new();
        proof {
            lemma_pair_vals_of(out@);
            assert(pair_vals_of(out@) =~= Seq::<(Seq<char>, Val)>::empty());
        }
        return Some((out, j + 1));
    }
    if chars[j] != '"' {
        return None;
    }
    proof {
        lemma_parse_string_bounds(chars@, j + 1);
    }
    let kp = match parse_string_body(chars, j + 1) {
        Some(kp) => kp,
        None => {
            return None;
        },
    };
    let key = string_from_chars(&kp.0);
    let j2 = skip_ws(chars, kp.1);
    if !(j2 < chars.len() && chars[j2] == ':') {
        return None;
    }
    let vp = match parse_value_at(chars, j2 + 1, fuel - 1) {
        Some(vp) => vp,
        None => {
            return None;
        },
    };
    let j3 = skip_ws(chars, vp.1);
    if j3 < chars.len() && chars[j3] == ',' {
        match parse_members_at(chars, j3 + 1, false, fuel - 1) {
            Some(rp) => {
                let mut out = rp.0;
                let ghost rest_model = pair_vals_of(out@);
                let ghost old_pairs = out@;
                proof {
                    lemma_pair_vals_of(old_pairs);
                }
                match crate::value::assoc_find(&out, key.as_str()) {
                    Some(w) => {
                        proof {
                            crate::value::lemma_obj_lookup_at(rest_model, key@, w as int);
                            assert(member_combine(key@, vp.0@, rest_model) == rest_model);
                        }
                        Some((out, rp.1))
                    },
                    None => {
                        proof {
                            crate::value::lemma_obj_lookup_absent(rest_model, key@);
                        }
                        out.insert(0, (key, vp.0));
                        proof {
                            lemma_pair_vals_of(old_pairs);
                            lemma_pair_vals_of(out@);
                            assert(pair_vals_of(out@) =~= member_combine(
                                (spec_parse_string(chars@, j + 1)->0).0,
                                (spec_parse_value(chars@, j2 + 1, (fuel - 1) as nat)->0).0,
                                rest_model,
                            ));
                        }
                        Some((out, rp.1))
                    },
                }
            },
            None => None,
        }
    } else if j3 < chars.len() && chars[j3] == '}' {
        let mut out: Vec<(String, Value)> = Vec::new();
        out.push((key, vp.0));
        proof {
            lemma_pair_vals_of(out@);
            assert(pair_vals_of(out@) =~= seq![((spec_parse_string(chars@, j + 1)->0).0, (
            spec_parse_value(chars@, j2 + 1, (fuel - 1) as nat)->0).0)]);
        }
        Some((out, j3 + 1))
    } else {
        None
    }
}

/// The value a JSON document denotes: exactly one value surrounded by
/// whitespace. A document longer than the 32-bit guest space is
/// rejected.
pub open spec fn spec_parse_doc(s: Seq<char>) -> Option<Val> {
    if s.len() > 0xffffffff {
        None
    } else {
        match spec_parse_value(s, 0, (2 * s.len() + 2) as nat) {
            Some(p) => if spec_skip_ws(s, p.1) == s.len() {
                Some(p.0)
            } else {
                None
            },
            None => None,
        }
    }
}

/// Parses a whole string as a JSON document into a fresh descriptor;
/// `-1` stands for malformed input.
pub fn parse_str(store: &mut GlobalStore, s: &str) -> (d: i32)
    requires
        old(store).wf(),
        old(store).can_alloc_value(),
    ensures
        final(store).wf(),
        match spec_parse_doc(s@) {
            Some(v) => crate::heap::alloc_effect(*old(store), *final(store), d, v),
            None => d == -1 && *final(store) == *old(store),
        },
{
    let chars = str_to_chars(s);
    if chars.len() > 0xffffffff {
        return -1;
    }
    let fuel: u64 = 2 * (chars.len() as u64) + 2;
    match parse_value_at(&chars, 0, fuel) {
        Some(p) => {
            let j = skip_ws(&chars, p.1);
            if j == chars.len() {
                store.store_value(p.0)
            } else {
                -1
            }
        },
        None => -1,
    }
}

/// Parses the bytes at `(data, len)` of guest memory as a JSON document
/// into a fresh descriptor; `-1` stands for malformed input, an empty
/// length or a range leaving the memory.
pub fn parse(store: &mut GlobalStore, mem: &Vec<u8>, data: u32, len: u32) -> (d: i32)
    requires
        old(store).wf(),
        old(store).can_alloc_value(),
    ensures
        final(store).wf(),
        ({
            let doc: Option<Val> = if len > 0 && data + len <= mem@.len() {
                spec_parse_doc(
                    crate::memory::utf8_lossy(mem@.subrange(data as int, data + len)),
                )
            } else {
                None
            };
            match doc {
                Some(v) => crate::heap::alloc_effect(*old(store), *final(store), d, v),
                None => d == -1 && *final(store) == *old(store),
            }
        }),
{
    if len == 0 {
        return -1;
    }
    match crate::memory::read_string(mem, data, len) {
        Some(s) => parse_str(store, s.as_str()),
        None => -1,
    }
}

/// The values the serializer covers: null, booleans, integers, strings,
/// and arrays and objects of such. This is a deliberate restriction of
/// JSON's domain: a `Float` is excluded, because rendering a 64-bit
/// pattern as decimal text is floating-point work that cannot stand in
/// verified code here. The parser still produces `Float`s; only the
/// serializer, and with it the round-trip law, stops short of them.
pub open spec fn json_domain(v: Val) -> bool
    decreases v,
{
    match v {
        Val::Null => true,
        Val::Bool(_) => true,
        Val::Int(_) => true,
        Val::Str(_) => true,
        Val::Array(items) => forall|i: int| 0 <= i < items.len() ==> json_domain(
            #[trigger] items[i],
        ),
        Val::Object(pairs) => forall|i: int| 0 <= i < pairs.len() ==> json_domain(
            #[trigger] pairs[i].1,
        ),
        _ => false,
    }
}

/// The lowercase hexadecimal digit of a value below sixteen.
pub open spec fn hexdig(d: int) -> char {
    if d < 10 {
        ((48 + d) as u8) as char
    } else {
        ((87 + d) as u8) as char
    }
}

/// The escape of one string character: quote and backslash get a
/// backslash, control characters a four-digit escape, and the rest pass
/// through.
pub open spec fn esc(c: char) -> Seq<char> {
    if c == '"' {
        seq!['\\', '"']
    } else if c == '\\' {
        seq!['\\', '\\']
    } else if (c as u32) < 0x20 {
        seq!['\\', 'u', '0', '0', hexdig(((c as u32) >> 4) as int), hexdig(((c as u32) & 15) as int)]
    } else {
        seq![c]
    }
}

/// The serialized body of a string from position `k` on.
pub open spec fn ser_str_from(s: Seq<char>, k: int) -> Seq<char>
    decreases s.len() - k,
{
    if k < 0 || k >= s.len() {
        Seq::empty()
    } else {
        esc(s[k]) + ser_str_from(s, k + 1)
    }
}

/// The decimal digits of a nonnegative integer, most significant first.
pub open spec fn dec_nat(n: int) -> Seq<char>
    decreases n,
{
    if n < 10 {
        seq![((48 + (if n >= 0 { n } else { 0 })) as u8) as char]
    } else {
        dec_nat(n / 10) + seq![((48 + n % 10) as u8) as char]
    }
}

/// The decimal rendering of a signed integer.
pub open spec fn ser_int(x: i64) -> Seq<char> {
    if x < 0 {
        seq!['-'] + dec_nat(-(x as int))
    } else {
        dec_nat(x as int)
    }
}

/// The serialization of a JSON-expressible value.
pub open spec fn ser_val(v: Val) -> Seq<char>
    decreases v, 0int,
{
    match v {
        Val::Null => seq!['n', 'u', 'l', 'l'],
        Val::Bool(b) => if b {
            seq!['t', 'r', 'u', 'e']
        } else {
            seq!['f', 'a', 'l', 's', 'e']
        },
        Val::Int(x) => ser_int(x),
        Val::Str(s) => seq!['"'] + ser_str_from(s, 0) + seq!['"'],
        Val::Array(items) => seq!['['] + ser_elems_from(items, 0) + seq![']'],
        Val::Object(pairs) => seq!['{'] + ser_members_from(pairs, 0) + seq!['}'],
        _ => Seq::empty(),
    }
}

/// The serialized elements of an array from index `k` on, separated by
/// commas.
pub open spec fn ser_elems_from(items: Seq<Val>, k: int) -> Seq<char>
    decreases items, items.len() - k,
{
    if k < 0 || k >= items.len() {
        Seq::empty()
    } else if k == items.len() - 1 {
        ser_val(items[k])
    } else {
        ser_val(items[k]) + seq![','] + ser_elems_from(items, k + 1)
    }
}

/// The serialized members of an object from index `k` on, separated by
/// commas.
pub open spec fn ser_members_from(pairs: Seq<(Seq<char>, Val)>, k: int) -> Seq<char>
    decreases pairs, pairs.len() - k,
{
    if k < 0 || k >= pairs.len() {
        Seq::empty()
    } else {
        let one = seq!['"'] + ser_str_from(pairs[k].0, 0) + seq!['"', ':'] + ser_val(pairs[k].1);
        if k == pairs.len() - 1 {
            one
        } else {
            one + seq![','] + ser_members_from(pairs, k + 1)
        }
    }
}

/// Decides membership in the JSON-expressible domain.
#[verifier::loop_isolation(false)]
pub fn in_json_domain(v: &Value) -> (r: bool)
    ensures
        r == json_domain(v@),
    decreases *v,
{
    match v {
        Value::Null => true,
        Value::Bool(_) => true,
        Value::Int(_) => true,
        Value::Str(_) => true,
        Value::Array(items) => {
            proof {
                lemma_vals_of(items@);
            }
            let mut i: usize = 0;
            while i < items.len()
                invariant
                    i <= items@.len(),
                    forall|j: int| 0 <= j < i ==> json_domain(#[trigger] vals_of(items@)[j]),
                decreases items@.len() - i,
            {
                proof {
                    assert(decreases_to!(*v => *items));
                    assert(decreases_to!(*items => items@));
                    assert(decreases_to!(items@ => items@[i as int]));
                }
                if !in_json_domain(&items[i]) {
                    proof {
                        assert(Val::Array(vals_of(items@))->Array_0 == vals_of(items@));
                        if json_domain(v@) {
                            assert(json_domain(vals_of(items@)[i as int]));
                        }
                    }
                    return false;
                }
                i += 1;
            }
            proof {
                assert forall|j: int| 0 <= j < vals_of(items@).len() implies json_domain(
                    #[trigger] vals_of(items@)[j],
                ) by {}
                assert(json_domain(v@));
            }
            true
        },
        Value::Object(pairs) => {
            proof {
                lemma_pair_vals_of(pairs@);
            }
            let mut i: usize = 0;
            while i < pairs.len()
                invariant
                    i <= pairs@.len(),
                    forall|j: int| 0 <= j < i ==> json_domain(#[trigger] pair_vals_of(pairs@)[j].1),
                decreases pairs@.len() - i,
            {
                proof {
                    assert(decreases_to!(*v => *pairs));
                    assert(decreases_to!(*pairs => pairs@));
                    assert(decreases_to!(pairs@ => pairs@[i as int]));
                    assert(decreases_to!(pairs@[i as int] => pairs@[i as int].1));
                }
                if !in_json_domain(&pairs[i].1) {
                    proof {
                        assert(Val::Object(pair_vals_of(pairs@))->Object_0 == pair_vals_of(pairs@));
                        if json_domain(v@) {
                            assert(json_domain(pair_vals_of(pairs@)[i as int].1));
                        }
                    }
                    return false;
                }
                i += 1;
            }
            proof {
                assert forall|j: int| 0 <= j < pair_vals_of(pairs@).len() implies json_domain(
                    #[trigger] pair_vals_of(pairs@)[j].1,
                ) by {}
                assert(json_domain(v@));
            }
            true
        },
        _ => false,
    }
}

/// Appends the decimal digits of `n`.
fn push_dec(n: u64, out: &mut Vec<char>)
    ensures
        final(out)@ == old(out)@ + dec_nat(n as int),
    decreases n,
{
    if n < 10 {
        out.push((48 + n as u8) as char);
        proof {
            assert(out@ =~= old(out)@ + dec_nat(n as int));
        }
    } else {
        push_dec(n / 10, out);
        out.push((48 + (n % 10) as u8) as char);
        proof {
            assert(out@ =~= old(out)@ + dec_nat(n as int));
        }
    }
}

/// Appends the escape of one character.
fn push_esc(c: char, out: &mut Vec<char>)
    ensures
        final(out)@ == old(out)@ + esc(c),
{
    if c == '"' {
        out.push('\\');
        out.push('"');
    } else if c == '\\' {
        out.push('\\');
        out.push('\\');
    } else if (c as u32) < 0x20 {
        let u = c as u32;
        proof {
            assert((u >> 4) < 16 && (u & 15) < 16) by (bit_vector)
                requires
                    u < 0x20,
            ;
        }
        let hi = ((u >> 4) % 16) as u8;
        let lo = ((u & 15) % 16) as u8;
        out.push('\\');
        out.push('u');
        out.push('0');
        out.push('0');
        out.push(if hi < 10 {
            (48 + hi) as char
        } else {
            (87 + hi) as char
        });
        out.push(if lo < 10 {
            (48 + lo) as char
        } else {
            (87 + lo) as char
        });
    } else {
        out.push(c);
    }
    proof {
        assert(out@ =~= old(out)@ + esc(c));
    }
}

/// Appends the serialized string body from `k` on.
fn ser_str_chars(cs: &Vec<char>, k: usize, out: &mut Vec<char>)
    requires
        k <= cs@.len(),
    ensures
        final(out)@ == old(out)@ + ser_str_from(cs@, k as int),
    decreases cs@.len() - k,
{
    if k < cs.len() {
        push_esc(cs[k], out);
        ser_str_chars(cs, k + 1, out);
        proof {
            assert(out@ =~= old(out)@ + ser_str_from(cs@, k as int));
        }
    }
}

/// Appends the serialization of a JSON-expressible value.
fn ser_value(v: &Value, out: &mut Vec<char>)
    requires
        json_domain(v@),
    ensures
        final(out)@ == old(out)@ + ser_val(v@),
    decreases *v, 0int,
{
    match v {
        Value::Null => {
            out.push('n');
            out.push('u');
            out.push('l');
            out.push('l');
            proof {
                assert(out@ =~= old(out)@ + ser_val(v@));
            }
        },
        Value::Bool(b) => {
            if *b {
                out.push('t');
                out.push('r');
                out.push('u');
                out.push('e');
            } else {
                out.push('f');
                out.push('a');
                out.push('l');
                out.push('s');
                out.push('e');
            }
            proof {
                assert(out@ =~= old(out)@ + ser_val(v@));
            }
        },
        Value::Int(x) => {
            let n: u64 = if *x >= 0 {
                *x as u64
            } else {
                out.push('-');
                if *x == i64::MIN {
                    0x8000000000000000u64
                } else {
                    (-*x) as u64
                }
            };
            push_dec(n, out);
            proof {
                assert(out@ =~= old(out)@ + ser_val(v@));
            }
        },
        Value::Str(s) => {
            let cs = str_to_chars(s.as_str());
            out.push('"');
            ser_str_chars(&cs, 0, out);
            out.push('"');
            proof {
                assert(out@ =~= old(out)@ + ser_val(v@));
            }
        },
        Value::Array(items) => {
            proof {
                assert(decreases_to!(*v => *items));
                assert(decreases_to!(*items => items@));
                lemma_vals_of(items@);
            }
            out.push('[');
            ser_elems(items, 0, out);
            out.push(']');
            proof {
                assert(out@ =~= old(out)@ + ser_val(v@));
            }
        },
        Value::Object(pairs) => {
            proof {
                assert(decreases_to!(*v => *pairs));
                assert(decreases_to!(*pairs => pairs@));
                lemma_pair_vals_of(pairs@);
            }
            out.push('{');
            ser_members(pairs, 0, out);
            out.push('}');
            proof {
                assert(out@ =~= old(out)@ + ser_val(v@));
            }
        },
        _ => {
            proof {
                assert(false);
            }
        },
    }
}

/// Appends the serialized elements from index `k` on.
fn ser_elems(items: &Vec<Value>, k: usize, out: &mut Vec<char>)
    requires
        k <= items@.len(),
        json_domain(Val::Array(vals_of(items@))),
    ensures
        final(out)@ == old(out)@ + ser_elems_from(vals_of(items@), k as int),
    decreases items@, items@.len() - k,
{
    proof {
        lemma_vals_of(items@);
    }
    if k < items.len() {
        proof {
            assert(decreases_to!(items@ => items@[k as int]));
            assert(json_domain(Val::Array(vals_of(items@))->Array_0[k as int]));
        }
        ser_value(&items[k], out);
        if k + 1 < items.len() {
            out.push(',');
            ser_elems(items, k + 1, out);
        }
        proof {
            assert(out@ =~= old(out)@ + ser_elems_from(vals_of(items@), k as int));
        }
    }
}

/// Appends the serialized members from index `k` on.
fn ser_members(pairs: &Vec<(String, Value)>, k: usize, out: &mut Vec<char>)
    requires
        k <= pairs@.len(),
        json_domain(Val::Object(pair_vals_of(pairs@))),
    ensures
        final(out)@ == old(out)@ + ser_members_from(pair_vals_of(pairs@), k as int),
    decreases pairs@, pairs@.len() - k,
{
    proof {
        lemma_pair_vals_of(pairs@);
    }
    if k < pairs.len() {
        let cs = str_to_chars(pairs[k].0.as_str());
        out.push('"');
        ser_str_chars(&cs, 0, out);
        out.push('"');
        out.push(':');
        proof {
            assert(decreases_to!(pairs@ => pairs@[k as int]));
            assert(decreases_to!(pairs@[k as int] => pairs@[k as int].1));
            assert(json_domain(Val::Object(pair_vals_of(pairs@))->Object_0[k as int].1));
        }
        ser_value(&pairs[k].1, out);
        if k + 1 < pairs.len() {
            out.push(',');
            ser_members(pairs, k + 1, out);
        }
        proof {
            assert(out@ =~= old(out)@ + ser_members_from(pair_vals_of(pairs@), k as int));
        }
    }
}

/// Whether position `j` cannot continue a number token: the end of the
/// input, or a character that is no digit, point or exponent marker.
pub open spec fn stops_number(s: Seq<char>, j: int) -> bool {
    j == s.len() || !(is_digit(s[j]) || s[j] == '.' || s[j] == 'e' || s[j] == 'E' || s[j] == '-')
}

/// Skipping whitespace at a non-whitespace position stays put.
proof fn lemma_skip_ws_at_nonws(s: Seq<char>, i: int)
    requires
        0 <= i < s.len(),
        !is_ws(s[i]),
    ensures
        spec_skip_ws(s, i) == i,
{
}

/// A digit span over known digits ends at the first non-digit.
proof fn lemma_span_digits_exact(s: Seq<char>, i: int, j: int)
    requires
        0 <= i <= j <= s.len(),
        forall|k: int| i <= k < j ==> is_digit(s[k]),
        j == s.len() || !is_digit(s[j]),
    ensures
        span_digits(s, i) == j,
    decreases j - i,
{
    if i < j {
        lemma_span_digits_exact(s, i + 1, j);
    }
}

/// The decimal rendering of a nonnegative integer is nonempty, all
/// digits, and free of a leading zero unless it is zero itself.
proof fn lemma_dec_nat_props(n: int)
    requires
        n >= 0,
    ensures
        dec_nat(n).len() >= 1,
        forall|k: int| 0 <= k < dec_nat(n).len() ==> is_digit(#[trigger] dec_nat(n)[k]),
        n >= 1 ==> (dec_nat(n)[0] as u32) != 48,
        n == 0 ==> dec_nat(n) =~= seq!['0'],
        n >= 10 ==> dec_nat(n).len() >= 2,
    decreases n,
{
    if n < 10 {
        assert(is_digit(dec_nat(n)[0]));
        if n >= 1 {
            assert((dec_nat(n)[0] as u32) == 48 + n);
        }
    } else {
        assert(dec_nat(n)[0] == dec_nat(n / 10)[0]);
        lemma_dec_nat_props(n / 10);
        assert forall|k: int| 0 <= k < dec_nat(n).len() implies is_digit(
            #[trigger] dec_nat(n)[k],
        ) by {
            if k < dec_nat(n / 10).len() {
                assert(dec_nat(n)[k] == dec_nat(n / 10)[k]);
            } else {
                assert(dec_nat(n)[k] == ((48 + n % 10) as u8) as char);
            }
        }
    }
}

/// The digits of a rendered integer read back as the integer.
proof fn lemma_dec_nat_val(s: Seq<char>, i: int, n: int)
    requires
        n >= 0,
        0 <= i,
        i + dec_nat(n).len() <= s.len(),
        s.subrange(i, i + dec_nat(n).len()) == dec_nat(n),
    ensures
        digits_val(s, i, i + dec_nat(n).len()) == n,
    decreases n,
{
    reveal_with_fuel(digits_val, 2);
    let d = dec_nat(n);
    if n < 10 {
        assert(s[i] == d[0]);
        assert(digits_val(s, i, i) == 0);
        assert(digits_val(s, i, i + 1) == (s[i] as u32) - 48);
    } else {
        lemma_dec_nat_props(n / 10);
        let lp = dec_nat(n / 10).len() as int;
        assert(s.subrange(i, i + lp) =~= dec_nat(n / 10)) by {
            assert forall|k: int| 0 <= k < lp implies #[trigger] s.subrange(i, i + lp)[k]
                == dec_nat(n / 10)[k] by {
                assert(s.subrange(i, i + d.len())[k] == d[k]);
                assert(d[k] == dec_nat(n / 10)[k]);
            }
        }
        lemma_dec_nat_val(s, i, n / 10);
        assert(s[i + d.len() - 1] == d[d.len() - 1]);
        assert(d[d.len() - 1] == ((48 + n % 10) as u8) as char);
        assert(digits_val(s, i, i + d.len()) == digits_val(s, i, i + d.len() - 1) * 10 + (s[i
            + d.len() - 1] as u32) - 48);
    }
}

/// Parsing the rendering of an integer, with nothing number-like after
/// it, yields exactly that integer.
proof fn lemma_parse_number_int(s: Seq<char>, i: int, x: i64)
    requires
        0 <= i,
        i + ser_int(x).len() <= s.len(),
        s.subrange(i, i + ser_int(x).len()) == ser_int(x),
        stops_number(s, i + ser_int(x).len()),
    ensures
        spec_parse_number(s, i) == Some((Val::Int(x), i + ser_int(x).len())),
{
    let neg = x < 0;
    let mag: int = if x < 0 {
        -(x as int)
    } else {
        x as int
    };
    let d = dec_nat(mag);
    let d0: int = if neg {
        i + 1
    } else {
        i
    };
    lemma_dec_nat_props(mag);
    assert forall|k: int| d0 <= k < d0 + d.len() implies is_digit(s[k]) by {
        assert(s.subrange(i, i + ser_int(x).len())[k - i] == ser_int(x)[k - i]);
        assert(ser_int(x)[k - i] == d[k - d0]);
    }
    assert(s.subrange(d0, d0 + d.len()) =~= d) by {
        assert forall|k: int| 0 <= k < d.len() implies s.subrange(d0, d0 + d.len())[k] == d[k] by {
            assert(s.subrange(i, i + ser_int(x).len())[k + d0 - i] == ser_int(x)[k + d0 - i]);
        }
    }
    if neg {
        assert(s[i] == ser_int(x)[0]) by {
            assert(s.subrange(i, i + ser_int(x).len())[0] == ser_int(x)[0]);
        }
        assert(s[i] == '-');
    } else {
        assert(s[i] == d[0]) by {
            assert(s.subrange(i, i + ser_int(x).len())[0] == ser_int(x)[0]);
        }
    }
    assert(is_digit(s[d0]));
    lemma_span_digits_exact(s, d0, d0 + d.len());
    lemma_dec_nat_val(s, d0, mag);
    let int_end = d0 + d.len();
    assert(s[d0] == d[0]);
    if s[d0] == '0' {
        assert(mag < 10) by {
            if mag >= 10 {
                assert((d[0] as u32) != 48);
                assert('0' as u32 == 48);
            }
        }
        assert(d.len() == 1);
    }
    assert(int_end == i + ser_int(x).len());
    assert(int_end == s.len() || !is_digit(s[int_end]));
    assert(!(int_end < s.len() && s[int_end] == '.'));
    assert(spec_exp_end(s, int_end) == int_end);
    let dlen = int_end - d0;
    assert(digits_val(s, d0, int_end) == mag);
    if dlen >= 20 {
        lemma_pow10_19();
        lemma_pow10_mono(19, (dlen - 1) as nat);
        assert((s[d0] as u32) != 48) by {
            assert('0' as u32 == 48);
            assert((d[0] as u32) != 48);
        }
        lemma_digits_lower(s, d0, int_end);
        assert(false);
    }
    if dlen == 19 {
        lemma_pow10_19();
    } else {
        lemma_digits_val_bound(s, d0, int_end);
        lemma_pow10_19();
        lemma_pow10_mono((int_end - d0) as nat, 18);
    }
    assert(spec_parse_number(s, i) == Some((Val::Int(x), int_end)));
}

/// A digit run beginning with a nonzero digit is at least ten to the
/// power of one less than its length.
proof fn lemma_digits_lower(s: Seq<char>, i: int, j: int)
    requires
        0 <= i < j <= s.len(),
        forall|k: int| i <= k < j ==> is_digit(s[k]),
        (s[i] as u32) != 48,
    ensures
        digits_val(s, i, j) >= pow10((j - i - 1) as nat),
    decreases j - i,
{
    reveal_with_fuel(digits_val, 2);
    if j - i == 1 {
        assert(digits_val(s, i, i) == 0);
        assert(is_digit(s[i]));
        assert((s[i] as u32) >= 49);
        assert(pow10(0) == 1);
    } else {
        lemma_digits_lower(s, i, j - 1);
        lemma_pow10_mono(0, (j - i - 2) as nat);
        assert((s[j - 1] as u32) >= 48);
        assert(pow10((j - i - 1) as nat) == 10 * pow10((j - i - 2) as nat));
    }
}

/// Every character is a unicode scalar value, and casting its code back
/// yields the character itself.
proof fn lemma_char_code(c: char)
    ensures
        (c as u32) <= 0x10ffff,
        (c as u32) < 0xd800 || (c as u32) >= 0xe000,
        ((c as u32) as char) == c,
{
}

/// A hexadecimal digit reads back as its value.
proof fn lemma_hexdig_val(d: int)
    requires
        0 <= d < 16,
    ensures
        hex_val(hexdig(d)) == d,
{
}

/// Parsing the serialized body of a string, followed by a closing quote,
/// yields the string's remaining characters.
proof fn lemma_parse_ser_string(s: Seq<char>, i: int, cs: Seq<char>, k: int)
    requires
        0 <= i,
        0 <= k <= cs.len(),
        i + ser_str_from(cs, k).len() < s.len(),
        s.subrange(i, i + ser_str_from(cs, k).len()) == ser_str_from(cs, k),
        s[i + ser_str_from(cs, k).len()] == '"',
    ensures
        spec_parse_string(s, i) == Some(
            (cs.subrange(k, cs.len() as int), i + ser_str_from(cs, k).len() + 1),
        ),
    decreases cs.len() - k,
{
    let body = ser_str_from(cs, k);
    let l = body.len() as int;
    if k == cs.len() {
        assert(cs.subrange(k, cs.len() as int) =~= Seq::<char>::empty());
    } else {
        let c = cs[k];
        lemma_char_code(c);
        let e = esc(c);
        assert(body =~= e + ser_str_from(cs, k + 1));
        assert forall|m: int| 0 <= m < e.len() implies s[i + m] == e[m] by {
            assert(s.subrange(i, i + l)[m] == body[m]);
        }
        let rest = ser_str_from(cs, k + 1);
        let l2 = rest.len() as int;
        assert(s.subrange(i + e.len(), i + e.len() + l2) =~= rest) by {
            assert forall|m: int| 0 <= m < l2 implies #[trigger] s.subrange(
                i + e.len(),
                i + e.len() + l2,
            )[m] == rest[m] by {
                assert(s.subrange(i, i + l)[m + e.len()] == body[m + e.len()]);
                assert(body[m + e.len()] == rest[m]);
            }
        }
        lemma_parse_ser_string(s, i + e.len(), cs, k + 1);
        let tail = cs.subrange(k + 1, cs.len() as int);
        assert(seq![c] + tail =~= cs.subrange(k, cs.len() as int));
        if c == '"' {
            assert(s[i] == '\\' && s[i + 1] == '"');
            assert(escape_char(s[i + 1]) == Some('"'));
            assert(spec_parse_string(s, i) == Some((seq![c] + tail, i + l + 1)));
        } else if c == '\\' {
            assert(s[i] == '\\' && s[i + 1] == '\\');
            assert(escape_char(s[i + 1]) == Some('\\'));
            assert(spec_parse_string(s, i) == Some((seq![c] + tail, i + l + 1)));
        } else if (c as u32) < 0x20 {
            let u = c as u32;
            let hi = (u >> 4) as int;
            let lo = (u & 15) as int;
            assert(u < 0x20 ==> (u >> 4) < 2 && (u & 15) < 16 && ((u >> 4) * 16 + (u & 15) == u))
                by (bit_vector);
            assert(s[i] == '\\' && s[i + 1] == 'u' && s[i + 2] == '0' && s[i + 3] == '0');
            assert(s[i + 4] == hexdig(hi) && s[i + 5] == hexdig(lo));
            lemma_hexdig_val(hi);
            lemma_hexdig_val(lo);
            assert(hex_val(s[i + 2]) == 0 && hex_val(s[i + 3]) == 0);
            assert(hex4(s, i + 2) == hi * 16 + lo);
            assert(hex4(s, i + 2) == u);
            assert(0 <= hex4(s, i + 2) < 0xd800);
            assert(((u as u32) as char) == c);
            assert(spec_parse_string(s, i) == Some((seq![c] + tail, i + l + 1)));
        } else {
            assert(e =~= seq![c]);
            assert(e[0] == c);
            assert(s[i + 0] == e[0]);
            assert(s[i] == c);
            assert(!(s[i] == '"') && !(s[i] == '\\') && !((s[i] as u32) < 0x20));
            assert(spec_parse_string(s, i) == Some((seq![c] + tail, i + l + 1)));
        }
    }
}

/// A serialization is never empty and opens with a character that can
/// begin a JSON value.
proof fn lemma_ser_val_head(v: Val)
    requires
        json_domain(v),
    ensures
        ser_val(v).len() >= 1,
        ser_val(v)[0] == 'n' || ser_val(v)[0] == 't' || ser_val(v)[0] == 'f' || ser_val(v)[0]
            == '"' || ser_val(v)[0] == '[' || ser_val(v)[0] == '{' || ser_val(v)[0] == '-'
            || is_digit(ser_val(v)[0]),
{
    match v {
        Val::Int(x) => {
            let mag: int = if x < 0 {
                -(x as int)
            } else {
                x as int
            };
            lemma_dec_nat_props(mag);
            if x >= 0 {
                assert(ser_val(v)[0] == dec_nat(mag)[0]);
            }
        },
        _ => {},
    }
}

/// Parsing the serialization of a JSON-expressible, well-formed value
/// yields the value back, ending right after it, provided nothing
/// number-like follows and the fuel covers the remaining input.
#[verifier::rlimit(100)]
proof fn lemma_parse_ser_value(s: Seq<char>, i: int, fuel: nat, v: Val)
    requires
        json_domain(v),
        wf_val(v),
        0 <= i,
        i + ser_val(v).len() <= s.len(),
        s.subrange(i, i + ser_val(v).len()) == ser_val(v),
        stops_number(s, i + ser_val(v).len()),
        fuel >= 2 * (s.len() - i) + 2,
    ensures
        spec_parse_value(s, i, fuel) == Some((v, i + ser_val(v).len())),
    decreases v, 0int,
{
    let w = ser_val(v);
    let l = w.len() as int;
    assert forall|m: int| 0 <= m < l implies s[i + m] == w[m] by {
        assert(s.subrange(i, i + l)[m] == w[m]);
    }
    lemma_ser_val_head(v);
    assert(!is_ws(s[i]));
    lemma_skip_ws_at_nonws(s, i);
    match v {
        Val::Null => {
            assert(s[i] == 'n' && s[i + 1] == 'u' && s[i + 2] == 'l' && s[i + 3] == 'l');
        },
        Val::Bool(b) => {
            if b {
                assert(s[i] == 't' && s[i + 1] == 'r' && s[i + 2] == 'u' && s[i + 3] == 'e');
            } else {
                assert(s[i] == 'f' && s[i + 1] == 'a' && s[i + 2] == 'l' && s[i + 3] == 's' && s[i
                    + 4] == 'e');
            }
        },
        Val::Int(x) => {
            let c = s[i];
            let mag: int = if x < 0 {
                -(x as int)
            } else {
                x as int
            };
            lemma_dec_nat_props(mag);
            if x < 0 {
                assert(c == '-');
            } else {
                assert(w =~= dec_nat(mag));
                assert(s[i + 0] == w[0]);
                assert(is_digit(c));
                assert(c != 'n' && c != 't' && c != 'f' && c != '"' && c != '[' && c != '{') by {
                    assert(('n' as u32) == 110 && ('t' as u32) == 116 && ('f' as u32) == 102 && (
                    '"' as u32) == 34 && ('[' as u32) == 91 && ('{' as u32) == 123);
                }
            }
            lemma_parse_number_int(s, i, x);
        },
        Val::Str(cs) => {
            assert(s[i] == '"');
            let body = ser_str_from(cs, 0);
            let bl = body.len() as int;
            assert(w =~= seq!['"'] + body + seq!['"']);
            assert forall|m: int| 0 <= m < bl implies #[trigger] s.subrange(
                i + 1,
                i + 1 + bl,
            )[m] == body[m] by {
                assert(s[i + 1 + m] == w[m + 1]);
                assert(w[m + 1] == body[m]);
            }
            assert(s.subrange(i + 1, i + 1 + bl) =~= body);
            assert(s[i + 1 + bl] == w[bl + 1]);
            assert(s[i + 1 + bl] == '"');
            lemma_parse_ser_string(s, i + 1, cs, 0);
            assert(cs.subrange(0, cs.len() as int) =~= cs);
        },
        Val::Array(items) => {
            assert(s[i] == '[');
            let body = ser_elems_from(items, 0);
            let bl = body.len() as int;
            assert(w =~= seq!['['] + body + seq![']']);
            assert forall|m: int| 0 <= m < bl implies #[trigger] s.subrange(
                i + 1,
                i + 1 + bl,
            )[m] == body[m] by {
                assert(s[i + 1 + m] == w[m + 1]);
                assert(w[m + 1] == body[m]);
            }
            assert(s.subrange(i + 1, i + 1 + bl) =~= body);
            assert(s[i + 1 + bl] == w[bl + 1]);
            assert(s[i + 1 + bl] == ']');
            lemma_parse_ser_elems(s, i + 1, (fuel - 1) as nat, items, 0);
            assert(items.subrange(0, items.len() as int) =~= items);
        },
        Val::Object(pairs) => {
            assert(s[i] == '{');
            let body = ser_members_from(pairs, 0);
            let bl = body.len() as int;
            assert(w =~= seq!['{'] + body + seq!['}']);
            assert forall|m: int| 0 <= m < bl implies #[trigger] s.subrange(
                i + 1,
                i + 1 + bl,
            )[m] == body[m] by {
                assert(s[i + 1 + m] == w[m + 1]);
                assert(w[m + 1] == body[m]);
            }
            assert(s.subrange(i + 1, i + 1 + bl) =~= body);
            assert(s[i + 1 + bl] == w[bl + 1]);
            assert(s[i + 1 + bl] == '}');
            lemma_parse_ser_members(s, i + 1, (fuel - 1) as nat, pairs, 0);
            assert(pairs.subrange(0, pairs.len() as int) =~= pairs);
        },
        _ => {
            assert(false);
        },
    }
}

/// Parsing the serialized elements of an array from index `k`, followed
/// by the closing bracket, yields the remaining elements.
proof fn lemma_parse_ser_elems(s: Seq<char>, i: int, fuel: nat, items: Seq<Val>, k: int)
    requires
        json_domain(Val::Array(items)),
        wf_val(Val::Array(items)),
        0 <= k <= items.len(),
        0 <= i,
        i + ser_elems_from(items, k).len() < s.len(),
        s.subrange(i, i + ser_elems_from(items, k).len()) == ser_elems_from(items, k),
        s[i + ser_elems_from(items, k).len()] == ']',
        fuel >= 2 * (s.len() - i) + 3,
    ensures
        spec_parse_elems(s, i, k == items.len(), fuel) == Some(
            (items.subrange(k, items.len() as int), i + ser_elems_from(items, k).len() + 1),
        ),
        k < items.len() ==> spec_parse_elems(s, i, true, fuel) == Some(
            (items.subrange(k, items.len() as int), i + ser_elems_from(items, k).len() + 1),
        ),
    decreases items, items.len() - k,
{
    let body = ser_elems_from(items, k);
    let l = body.len() as int;
    assert forall|m: int| 0 <= m < l implies s[i + m] == body[m] by {
        assert(s.subrange(i, i + l)[m] == body[m]);
    }
    if k == items.len() {
        assert(s[i] == ']');
        assert(!is_ws(s[i]));
        lemma_skip_ws_at_nonws(s, i);
        assert(items.subrange(k, items.len() as int) =~= Seq::<Val>::empty());
    } else {
        let e = items[k];
        assert(json_domain(e) && wf_val(e)) by {
            assert(Val::Array(items)->Array_0 == items);
        }
        let ew = ser_val(e);
        let el = ew.len() as int;
        lemma_ser_val_head(e);
        if k == items.len() - 1 {
            assert(body =~= ew);
        } else {
            assert(body =~= ew + seq![','] + ser_elems_from(items, k + 1));
        }
        assert(s.subrange(i, i + el) =~= ew) by {
            assert forall|m: int| 0 <= m < el implies #[trigger] s.subrange(i, i + el)[m]
                == ew[m] by {
                assert(s[i + m] == body[m]);
                assert(body[m] == ew[m]);
            }
        }
        assert(!is_ws(s[i])) by {
            assert(s[i] == ew[0]);
        }
        lemma_skip_ws_at_nonws(s, i);
        assert(s[i] != ']') by {
            assert((']' as u32) == 93);
            assert(s[i] == ew[0]);
        }
        let after = i + el;
        if k == items.len() - 1 {
            assert(s[after] == ']');
        } else {
            assert(s[after] == body[el]);
            assert(s[after] == ',');
        }
        assert(stops_number(s, after)) by {
            assert((',' as u32) == 44 && (']' as u32) == 93);
        }
        lemma_parse_ser_value(s, i, (fuel - 1) as nat, e);
        assert(!is_ws(s[after])) by {
            assert((',' as u32) == 44 && (']' as u32) == 93);
        }
        lemma_skip_ws_at_nonws(s, after);
        if k == items.len() - 1 {
            assert(items.subrange(k, items.len() as int) =~= seq![e]);
        } else {
            let rest = ser_elems_from(items, k + 1);
            let rl = rest.len() as int;
            assert(s.subrange(after + 1, after + 1 + rl) =~= rest) by {
                assert forall|m: int| 0 <= m < rl implies #[trigger] s.subrange(
                    after + 1,
                    after + 1 + rl,
                )[m] == rest[m] by {
                    assert(s[after + 1 + m] == body[el + 1 + m]);
                    assert(body[el + 1 + m] == rest[m]);
                }
            }
            assert(s[after + 1 + rl] == ']');
            lemma_parse_ser_elems(s, after + 1, (fuel - 1) as nat, items, k + 1);
            assert(seq![e] + items.subrange(k + 1, items.len() as int) =~= items.subrange(
                k,
                items.len() as int,
            ));
        }
    }
}

/// Parsing the serialized members of an object from index `k`, followed
/// by the closing brace, yields the remaining pairs.
#[verifier::rlimit(100)]
proof fn lemma_parse_ser_members(s: Seq<char>, i: int, fuel: nat, pairs: Seq<(Seq<char>, Val)>, k: int)
    requires
        json_domain(Val::Object(pairs)),
        wf_val(Val::Object(pairs)),
        0 <= k <= pairs.len(),
        0 <= i,
        i + ser_members_from(pairs, k).len() < s.len(),
        s.subrange(i, i + ser_members_from(pairs, k).len()) == ser_members_from(pairs, k),
        s[i + ser_members_from(pairs, k).len()] == '}',
        fuel >= 2 * (s.len() - i) + 3,
    ensures
        spec_parse_members(s, i, k == pairs.len(), fuel) == Some(
            (pairs.subrange(k, pairs.len() as int), i + ser_members_from(pairs, k).len() + 1),
        ),
        k < pairs.len() ==> spec_parse_members(s, i, true, fuel) == Some(
            (pairs.subrange(k, pairs.len() as int), i + ser_members_from(pairs, k).len() + 1),
        ),
    decreases pairs, pairs.len() - k,
{
    let body = ser_members_from(pairs, k);
    let l = body.len() as int;
    assert forall|m: int| 0 <= m < l implies s[i + m] == body[m] by {
        assert(s.subrange(i, i + l)[m] == body[m]);
    }
    if k == pairs.len() {
        assert(s[i] == '}');
        assert(!is_ws(s[i]));
        lemma_skip_ws_at_nonws(s, i);
        assert(pairs.subrange(k, pairs.len() as int) =~= Seq::<(Seq<char>, Val)>::empty());
    } else {
        let key = pairs[k].0;
        let e = pairs[k].1;
        assert(json_domain(e) && wf_val(e)) by {
            assert(Val::Object(pairs)->Object_0 == pairs);
        }
        let kw = ser_str_from(key, 0);
        let kl = kw.len() as int;
        let ew = ser_val(e);
        let el = ew.len() as int;
        let one = seq!['"'] + kw + seq!['"', ':'] + ew;
        if k == pairs.len() - 1 {
            assert(body =~= one);
        } else {
            assert(body =~= one + seq![','] + ser_members_from(pairs, k + 1));
        }
        assert(s[i + 0] == body[0]);
        assert(one[0] == '"') by {
            assert((seq!['"'] + kw)[0] == '"');
            assert(((seq!['"'] + kw) + seq!['"', ':'])[0] == '"');
        }
        assert(body[0] == one[0]);
        assert(s[i] == '"');
        assert(!is_ws(s[i]));
        lemma_skip_ws_at_nonws(s, i);
        assert(s[i] != '}') by {
            assert(('}' as u32) == 125 && ('"' as u32) == 34);
        }
        assert(s.subrange(i + 1, i + 1 + kl) =~= kw) by {
            assert forall|m: int| 0 <= m < kl implies #[trigger] s.subrange(i + 1, i + 1 + kl)[m]
                == kw[m] by {
                assert(s[i + 1 + m] == body[m + 1]);
                assert(body[m + 1] == kw[m]);
            }
        }
        assert(s[i + 1 + kl] == body[kl + 1]);
        assert(s[i + 1 + kl] == '"');
        lemma_parse_ser_string(s, i + 1, key, 0);
        assert(key.subrange(0, key.len() as int) =~= key);
        let colon = i + kl + 2;
        assert(s[colon] == body[kl + 2]);
        assert(s[colon] == ':');
        assert(!is_ws(s[colon])) by {
            assert((':' as u32) == 58);
        }
        lemma_skip_ws_at_nonws(s, colon);
        let vstart = colon + 1;
        assert(s.subrange(vstart, vstart + el) =~= ew) by {
            assert forall|m: int| 0 <= m < el implies #[trigger] s.subrange(
                vstart,
                vstart + el,
            )[m] == ew[m] by {
                assert(s[vstart + m] == body[kl + 3 + m]);
                assert(body[kl + 3 + m] == ew[m]);
            }
        }
        let after = vstart + el;
        if k == pairs.len() - 1 {
            assert(s[after] == '}');
        } else {
            assert(s[after] == body[kl + 3 + el]);
            assert(s[after] == ',');
        }
        assert(stops_number(s, after)) by {
            assert((',' as u32) == 44 && ('}' as u32) == 125);
        }
        lemma_parse_ser_value(s, vstart, (fuel - 1) as nat, e);
        assert(!is_ws(s[after])) by {
            assert((',' as u32) == 44 && ('}' as u32) == 125);
        }
        lemma_skip_ws_at_nonws(s, after);
        if k == pairs.len() - 1 {
            assert(pairs.subrange(k, pairs.len() as int) =~= seq![(key, e)]);
        } else {
            let rest = ser_members_from(pairs, k + 1);
            let rl = rest.len() as int;
            assert(s.subrange(after + 1, after + 1 + rl) =~= rest) by {
                assert forall|m: int| 0 <= m < rl implies #[trigger] s.subrange(
                    after + 1,
                    after + 1 + rl,
                )[m] == rest[m] by {
                    assert(s[after + 1 + m] == body[kl + 4 + el + m]);
                    assert(body[kl + 4 + el + m] == rest[m]);
                }
            }
            assert(s[after + 1 + rl] == '}');
            lemma_parse_ser_members(s, after + 1, (fuel - 1) as nat, pairs, k + 1);
            let tail = pairs.subrange(k + 1, pairs.len() as int);
            assert(obj_lookup(tail, key) is None) by {
                assert(obj_keys_unique(pairs));
                assert forall|m: int| 0 <= m < tail.len() implies tail[m].0 != key by {
                    assert(tail[m] == pairs[k + 1 + m]);
                }
                crate::value::lemma_obj_lookup_absent(tail, key);
            }
            assert(member_combine(key, e, tail) =~= seq![(key, e)] + tail);
            assert(seq![(key, e)] + tail =~= pairs.subrange(k, pairs.len() as int));
        }
    }
}

/// The JSON round trip: parsing the serialization of a well-formed value
/// in the serializer's domain yields the value back, provided the text
/// fits the 32-bit guest space. The law covers JSON's domain except
/// fractional numbers (see `json_domain`): for those the serializer
/// yields nothing, so nothing is claimed of them here.
pub proof fn lemma_json_round_trip(v: Val)
    requires
        json_domain(v),
        wf_val(v),
        ser_val(v).len() <= 0xffffffff,
    ensures
        spec_parse_doc(ser_val(v)) == Some(v),
{
    let s = ser_val(v);
    let fuel = (2 * s.len() + 2) as nat;
    assert(s.subrange(0, s.len() as int) =~= s);
    assert(stops_number(s, s.len() as int));
    lemma_parse_ser_value(s, 0, fuel, v);
}

/// Serializes a value of the serializer's domain to its document text; a
/// value outside it — a `Float` or `Date` included, whose decimal
/// rendering cannot stand in verified code — yields nothing.
pub fn serialize(v: &Value) -> (r: Option<String>)
    ensures
        json_domain(v@) ==> r is Some && r->0@ == ser_val(v@),
        !json_domain(v@) ==> r is None,
{
    if !in_json_domain(v) {
        return None;
    }
    let mut out: Vec<char> = Vec::new();
    ser_value(v, &mut out);
    proof {
        assert(out@ =~= ser_val(v@));
    }
    Some(string_from_chars(&out))
}

} // verus!
