//! Date support: the translation of the guest's date-format tokens to
//! strftime directives, and the trusted calls into chrono for the current
//! time and for parsing a date string against a format.

use vstd::prelude::*;
use crate::fbits::{i64_to_f64, i64_to_f64_bits, F64_NEG_ONE_BITS};
use crate::store::GlobalStore;
use crate::text::{str_to_chars, string_from_chars};
use crate::value::Value;

verus! {

/// Relies on `chrono::Utc::now`: the current Unix time in whole seconds.
/// Nothing is promised of the clock's reading.
#[verifier::external_body]
pub fn unix_now() -> i64 {
    chrono::Utc::now().timestamp()
}

/// Whether `s` begins with `p`.
pub open spec fn starts_with(s: Seq<char>, p: Seq<char>) -> bool {
    p.len() <= s.len() && s.subrange(0, p.len() as int) == p
}

/// Beginning with a pattern is the same as matching it character by
/// character.
proof fn lemma_starts_with_chars(s: Seq<char>, p: Seq<char>)
    ensures
        starts_with(s, p) <==> (p.len() <= s.len() && forall|k: int|
            0 <= k < p.len() ==> s[k] == p[k]),
{
    if p.len() <= s.len() && (forall|k: int| 0 <= k < p.len() ==> s[k] == p[k]) {
        assert(s.subrange(0, p.len() as int) =~= p);
    }
    if starts_with(s, p) {
        assert forall|k: int| 0 <= k < p.len() implies s[k] == p[k] by {
            assert(s.subrange(0, p.len() as int)[k] == s[k]);
        }
    }
}

/// The strftime translation of a date-format string: the tokens `yyyy,
/// EEEE, EEE, MM, dd, HH, mm, ss, d` become `%Y, %A, %a, %m, %d, %H, %M,
/// %S, %d`, longest token first at every position, and every other
/// character passes through.
pub open spec fn translate_format(s: Seq<char>) -> Seq<char>
    decreases s.len(),
{
    if s.len() == 0 {
        Seq::empty()
    } else if starts_with(s, seq!['y', 'y', 'y', 'y']) {
        seq!['%', 'Y'] + translate_format(s.skip(4))
    } else if starts_with(s, seq!['E', 'E', 'E', 'E']) {
        seq!['%', 'A'] + translate_format(s.skip(4))
    } else if starts_with(s, seq!['E', 'E', 'E']) {
        seq!['%', 'a'] + translate_format(s.skip(3))
    } else if starts_with(s, seq!['M', 'M']) {
        seq!['%', 'm'] + translate_format(s.skip(2))
    } else if starts_with(s, seq!['d', 'd']) {
        seq!['%', 'd'] + translate_format(s.skip(2))
    } else if starts_with(s, seq!['H', 'H']) {
        seq!['%', 'H'] + translate_format(s.skip(2))
    } else if starts_with(s, seq!['m', 'm']) {
        seq!['%', 'M'] + translate_format(s.skip(2))
    } else if starts_with(s, seq!['s', 's']) {
        seq!['%', 'S'] + translate_format(s.skip(2))
    } else if s[0] == 'd' {
        seq!['%', 'd'] + translate_format(s.skip(1))
    } else {
        seq![s[0]] + translate_format(s.skip(1))
    }
}

/// Translates the format characters from position `i` on.
fn translate_from(chars: &Vec<char>, i: usize) -> (r: Vec<char>)
    requires
        i <= chars@.len(),
    ensures
        r@ == translate_format(chars@.skip(i as int)),
    decreases chars@.len() - i,
{
    let ghost sk = chars@.skip(i as int);
    proof {
        lemma_starts_with_chars(sk, seq!['y', 'y', 'y', 'y']);
        lemma_starts_with_chars(sk, seq!['E', 'E', 'E', 'E']);
        lemma_starts_with_chars(sk, seq!['E', 'E', 'E']);
        lemma_starts_with_chars(sk, seq!['M', 'M']);
        lemma_starts_with_chars(sk, seq!['d', 'd']);
        lemma_starts_with_chars(sk, seq!['H', 'H']);
        lemma_starts_with_chars(sk, seq!['m', 'm']);
        lemma_starts_with_chars(sk, seq!['s', 's']);
        assert(forall|k: int| 0 <= k < sk.len() ==> sk[k] == chars@[i + k]);
    }
    let n = chars.len();
    if i == n {
        let out: Vec<char> = Vec::new();
        proof {
            assert(out@ =~= translate_format(sk));
        }
        return out;
    }
    let (head0, head1, used): (char, char, usize) = if n - i >= 4 && chars[i] == 'y' && chars[i + 1]
        == 'y' && chars[i + 2] == 'y' && chars[i + 3] == 'y' {
        ('%', 'Y', 4)
    } else if n - i >= 4 && chars[i] == 'E' && chars[i + 1] == 'E' && chars[i + 2] == 'E' && chars[i
        + 3] == 'E' {
        ('%', 'A', 4)
    } else if n - i >= 3 && chars[i] == 'E' && chars[i + 1] == 'E' && chars[i + 2] == 'E' {
        ('%', 'a', 3)
    } else if n - i >= 2 && chars[i] == 'M' && chars[i + 1] == 'M' {
        ('%', 'm', 2)
    } else if n - i >= 2 && chars[i] == 'd' && chars[i + 1] == 'd' {
        ('%', 'd', 2)
    } else if n - i >= 2 && chars[i] == 'H' && chars[i + 1] == 'H' {
        ('%', 'H', 2)
    } else if n - i >= 2 && chars[i] == 'm' && chars[i + 1] == 'm' {
        ('%', 'M', 2)
    } else if n - i >= 2 && chars[i] == 's' && chars[i + 1] == 's' {
        ('%', 'S', 2)
    } else if chars[i] == 'd' {
        ('%', 'd', 1)
    } else {
        (chars[i], chars[i], 1)
    };
    let mut out: Vec<char> = Vec::new();
    if head0 == '%' && !(head0 == head1) {
        out.push(head0);
        out.push(head1);
    } else {
        out.push(head0);
    }
    let mut rest = translate_from(chars, i + used);
    proof {
        assert(sk.skip(used as int) =~= chars@.skip(i + used));
    }
    out.append(&mut rest);
    proof {
        assert(out@ =~= translate_format(sk));
    }
    out
}

/// Translates a whole format string to its strftime equivalent.
pub fn translate_format_string(fmt: &str) -> (r: String)
    ensures
        r@ == translate_format(fmt@),
{
    let chars = str_to_chars(fmt);
    let translated = translate_from(&chars, 0);
    proof {
        assert(chars@.skip(0) =~= fmt@);
    }
    string_from_chars(&translated)
}

/// What chrono parses a date string to against a strftime format: the
/// UTC epoch seconds, where the date part must parse and a missing time
/// part reads as midnight. The result depends on the two strings alone.
pub uninterp spec fn date_epoch_of(s: Seq<char>, fmt: Seq<char>) -> Option<i64>;

/// Relies on `chrono::NaiveDate::parse_from_str` and
/// `chrono::NaiveTime::parse_from_str`: parses `s` against the strftime
/// format `fmt`; the date must parse, a missing or unparsable time reads
/// as midnight, and the pair is taken as UTC epoch seconds.
#[verifier::external_body]
fn parse_epoch(s: &str, fmt: &str) -> (r: Option<i64>)
    ensures
        r == date_epoch_of(s@, fmt@),
{
    let date = match chrono::NaiveDate::parse_from_str(s, fmt) {
        Ok(d) => d,
        Err(_) => {
            return None;
        },
    };
    let time = chrono::NaiveTime::parse_from_str(s, fmt).unwrap_or_default();
    Some(date.and_time(time).and_utc().timestamp())
}

/// What a date-string read yields, as a 64-bit pattern: the parsed epoch
/// seconds, or the pattern of -1 when parsing fails.
pub open spec fn date_string_result(s: Seq<char>, fmt: Seq<char>) -> u64 {
    match date_epoch_of(s, translate_format(fmt)) {
        Some(t) => i64_to_f64_bits(t),
        None => F64_NEG_ONE_BITS,
    }
}

/// Parses the string behind `descriptor` as a date, against the format at
/// `(format, format_len)` whose tokens are first translated to strftime
/// directives, and yields the UTC epoch seconds as a 64-bit pattern. The
/// locale and timezone arguments are accepted and ignored. The pattern
/// of -1 stands for a failed parse, a format range leaving the memory, a
/// non-string value or a dead descriptor.
pub fn read_date_string(
    store: &GlobalStore,
    mem: &Vec<u8>,
    descriptor: i32,
    format: u32,
    format_len: u32,
    locale: u32,
    locale_len: u32,
    timezone: u32,
    timezone_len: u32,
) -> (r: u64)
    ensures
        ({
            let live = store.val_map().dom().contains(descriptor as int);
            let ok = format + format_len <= mem@.len();
            if live && store.val_map()[descriptor as int] is Str && ok {
                r == date_string_result(
                    store.val_map()[descriptor as int]->Str_0,
                    crate::memory::utf8_lossy(
                        mem@.subrange(format as int, format + format_len),
                    ),
                )
            } else {
                r == F64_NEG_ONE_BITS
            }
        }),
{
    let s: &String = match store.read_value(descriptor) {
        Some(v) => match v {
            Value::Str(s) => s,
            _ => {
                return F64_NEG_ONE_BITS;
            },
        },
        None => {
            return F64_NEG_ONE_BITS;
        },
    };
    let fmt_raw: String = match crate::memory::read_string(mem, format, format_len) {
        Some(f) => f,
        None => {
            return F64_NEG_ONE_BITS;
        },
    };
    let fmt = translate_format_string(fmt_raw.as_str());
    match parse_epoch(s.as_str(), fmt.as_str()) {
        Some(t) => i64_to_f64(t),
        None => F64_NEG_ONE_BITS,
    }
}

} // verus!
