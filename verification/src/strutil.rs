//! Character-level string utilities.
//!
//! The library processes text as vectors of characters, whose view is the
//! same `Seq<char>` as the view of the `String` they came from. The two
//! conversions at the ends are the only trusted pieces here.

use vstd::prelude::*;

verus! {

/// Relies on str::chars: iterating a string slice yields exactly the
/// characters of its view, in order.
#[verifier::external_body]
pub fn chars_vec(s: &str) -> (r: Vec<char>)
    ensures
        r@ == s@,
{
    s.chars().collect()
}

/// Relies on String's FromIterator<char>: collecting characters builds the
/// string whose view is exactly that character sequence.
#[verifier::external_body]
pub fn string_from_chars(v: &Vec<char>) -> (r: String)
    ensures
        r@ == v@,
{
    v.iter().collect()
}

/// Character-wise equality of two character vectors.
pub fn eq_chars(a: &Vec<char>, b: &Vec<char>) -> (r: bool)
    ensures
        r <==> a@ == b@,
{
    if a.len() != b.len() {
        assert(a@ != b@) by {
            assert(a@.len() != b@.len());
        }
        return false;
    }
    let n = a.len();
    let mut i: usize = 0;
    while i < n
        invariant
            n == a.len() == b.len(),
            i <= n,
            forall|j: int| 0 <= j < i ==> a@[j] == b@[j],
        decreases n - i,
    {
        if a[i] != b[i] {
            return false;
        }
        i += 1;
    }
    proof {
        assert(a@ =~= b@);
    }
    true
}

/// Equality of two string slices, decided character by character.
pub fn str_eq(a: &str, b: &str) -> (r: bool)
    ensures
        r <==> a@ == b@,
{
    let av = chars_vec(a);
    let bv = chars_vec(b);
    eq_chars(&av, &bv)
}

/// The decimal digit character for a value below ten.
pub open spec fn digit_char(d: int) -> char {
    if d == 0 {
        '0'
    } else if d == 1 {
        '1'
    } else if d == 2 {
        '2'
    } else if d == 3 {
        '3'
    } else if d == 4 {
        '4'
    } else if d == 5 {
        '5'
    } else if d == 6 {
        '6'
    } else if d == 7 {
        '7'
    } else if d == 8 {
        '8'
    } else {
        '9'
    }
}

/// The decimal representation of a natural number, most significant digit
/// first, with no leading zeros (zero itself is the single digit `0`).
pub open spec fn spec_u64_digits(n: nat) -> Seq<char>
    decreases n,
{
    if n < 10 {
        seq![digit_char(n as int)]
    } else {
        spec_u64_digits(n / 10).push(digit_char((n % 10) as int))
    }
}

/// The decimal representation of a signed integer.
pub open spec fn spec_i64_chars(i: int) -> Seq<char> {
    if i < 0 {
        seq!['-'] + spec_u64_digits((-i) as nat)
    } else {
        spec_u64_digits(i as nat)
    }
}

fn digit_to_char(d: u64) -> (c: char)
    requires
        d < 10,
    ensures
        c == digit_char(d as int),
{
    if d == 0 {
        '0'
    } else if d == 1 {
        '1'
    } else if d == 2 {
        '2'
    } else if d == 3 {
        '3'
    } else if d == 4 {
        '4'
    } else if d == 5 {
        '5'
    } else if d == 6 {
        '6'
    } else if d == 7 {
        '7'
    } else if d == 8 {
        '8'
    } else {
        '9'
    }
}

/// The decimal digit character for a value below ten.
pub fn digit_to_char_pub(d: u64) -> (c: char)
    requires
        d < 10,
    ensures
        c == digit_char(d as int),
{
    digit_to_char(d)
}

/// Append the decimal digits of `n` to `out`.
pub fn push_u64_digits(n: u64, out: &mut Vec<char>)
    ensures
        final(out)@ == old(out)@ + spec_u64_digits(n as nat),
    decreases n,
{
    if n < 10 {
        let c = digit_to_char(n);
        out.push(c);
    } else {
        push_u64_digits(n / 10, out);
        let c = digit_to_char(n % 10);
        out.push(c);
    }
}

/// Append the decimal representation of `i`, with a sign when negative.
pub fn push_i64_digits(i: i64, out: &mut Vec<char>)
    ensures
        final(out)@ == old(out)@ + spec_i64_chars(i as int),
{
    if i >= 0 {
        push_u64_digits(i as u64, out);
    } else {
        out.push('-');
        // The magnitude of i64::MIN does not fit an i64, so step through
        // -(i + 1) + 1, which stays in range.
        let mag: u64 = ((-(i + 1)) as u64) + 1;
        assert(mag as nat == (-(i as int)) as nat);
        push_u64_digits(mag, out);
    }
}

/// The decimal representation of an unsigned integer as a string.
pub fn u64_to_string(n: u64) -> (r: String)
    ensures
        r@ == spec_u64_digits(n as nat),
{
    let mut out: Vec<char> = Vec::new();
    push_u64_digits(n, &mut out);
    string_from_chars(&out)
}

/// The decimal representation of a signed integer as a string.
pub fn i64_to_string(i: i64) -> (r: String)
    ensures
        r@ == spec_i64_chars(i as int),
{
    let mut out: Vec<char> = Vec::new();
    push_i64_digits(i, &mut out);
    string_from_chars(&out)
}

/// Whether a character is a decimal digit.
pub open spec fn is_dec_digit(c: char) -> bool {
    '0' <= c && c <= '9'
}

/// The value of a decimal digit character.
pub open spec fn digit_val(c: char) -> int {
    c as int - '0' as int
}

/// Whether every character of a sequence is a decimal digit.
pub open spec fn all_digits(s: Seq<char>) -> bool {
    forall|j: int| 0 <= j < s.len() ==> is_dec_digit(#[trigger] s[j])
}

/// The numeric value of a sequence of decimal digit characters.
pub open spec fn digits_val(s: Seq<char>) -> nat
    decreases s.len(),
{
    if s.len() == 0 {
        0
    } else {
        digits_val(s.drop_last()) * 10 + (if is_dec_digit(s.last()) {
            digit_val(s.last()) as nat
        } else {
            0
        })
    }
}

/// What parsing an unsigned decimal numeral yields: the digits' value, when
/// the text is one or more digits and the value fits.
pub open spec fn spec_parse_u64(s: Seq<char>) -> Option<u64> {
    if s.len() == 0 || !all_digits(s) {
        None
    } else if digits_val(s) > u64::MAX {
        None
    } else {
        Some(digits_val(s) as u64)
    }
}

proof fn lemma_digits_val_take_le(s: Seq<char>, i: int)
    requires
        all_digits(s),
        0 <= i <= s.len(),
    ensures
        digits_val(s.take(i)) <= digits_val(s),
    decreases s.len() - i,
{
    if i < s.len() {
        assert(s.take(i + 1).drop_last() =~= s.take(i));
        assert(s.take(i + 1).last() == s[i]);
        assert(digits_val(s.take(i)) <= digits_val(s.take(i + 1)));
        lemma_digits_val_take_le(s, i + 1);
    } else {
        assert(s.take(i) =~= s);
    }
}

/// Parse the characters of `s` between `from` and `to` as an unsigned
/// decimal numeral.
pub fn parse_u64_range(s: &Vec<char>, from: usize, to: usize) -> (r: Option<u64>)
    requires
        from <= to <= s.len(),
    ensures
        r == spec_parse_u64(s@.subrange(from as int, to as int)),
{
    let ghost sub = s@.subrange(from as int, to as int);
    if from == to {
        return None;
    }
    let mut acc: u64 = 0;
    let mut i: usize = from;
    while i < to
        invariant
            from <= i <= to <= s.len(),
            sub == s@.subrange(from as int, to as int),
            all_digits(sub.take(i - from)),
            acc as nat == digits_val(sub.take(i - from)),
        decreases to - i,
    {
        let c = s[i];
        if !('0' <= c && c <= '9') {
            assert(!all_digits(sub)) by {
                assert(sub[i - from] == c);
            }
            return None;
        }
        let d: u64 = (c as u32 as u64) - ('0' as u32 as u64);
        assert(d == digit_val(c));
        if acc > (u64::MAX - d) / 10 {
            // The value of the digits seen so far already exceeds u64::MAX.
            proof {
                assert(sub.take(i - from + 1).drop_last() =~= sub.take(i - from));
                assert(sub.take(i - from + 1).last() == c);
                assert(digits_val(sub.take(i - from + 1)) > u64::MAX);
                if all_digits(sub) {
                    lemma_digits_val_take_le(sub, i - from + 1);
                } else {
                }
            }
            return None;
        }
        proof {
            assert(sub.take(i - from + 1).drop_last() =~= sub.take(i - from));
            assert(sub.take(i - from + 1).last() == c);
        }
        acc = acc * 10 + d;
        i += 1;
    }
    proof {
        assert(sub.take(to - from) =~= sub);
    }
    Some(acc)
}

/// Parse a whole character vector as an unsigned decimal numeral.
pub fn parse_u64_chars(s: &Vec<char>) -> (r: Option<u64>)
    ensures
        r == spec_parse_u64(s@),
{
    let r = parse_u64_range(s, 0, s.len());
    proof {
        assert(s@.subrange(0, s@.len() as int) =~= s@);
    }
    r
}

/// Whether a character sequence is a lexical signed 64-bit integer: an
/// optional sign, then one or more digits, with the value in range.
pub open spec fn spec_is_i64(s: Seq<char>) -> bool {
    let signed = s.len() > 0 && (s[0] == '-' || s[0] == '+');
    let body = if signed {
        s.skip(1)
    } else {
        s
    };
    &&& body.len() > 0
    &&& all_digits(body)
    &&& (if s.len() > 0 && s[0] == '-' {
        digits_val(body) <= 0x8000_0000_0000_0000
    } else {
        digits_val(body) <= i64::MAX
    })
}

/// Decide whether the characters form a lexical signed 64-bit integer.
pub fn is_lexical_i64(s: &Vec<char>) -> (r: bool)
    ensures
        r == spec_is_i64(s@),
{
    if s.len() == 0 {
        return false;
    }
    let c0 = s[0];
    let signed = c0 == '-' || c0 == '+';
    let from: usize = if signed {
        1
    } else {
        0
    };
    let ghost body = if signed {
        s@.skip(1)
    } else {
        s@
    };
    proof {
        assert(body =~= s@.subrange(from as int, s@.len() as int));
    }
    match parse_u64_range(s, from, s.len()) {
        Some(v) => {
            if c0 == '-' {
                v <= 0x8000_0000_0000_0000u64
            } else {
                v <= i64::MAX as u64
            }
        },
        None => {
            proof {
                if body.len() > 0 && all_digits(body) {
                    assert(digits_val(body) > u64::MAX);
                }
            }
            false
        },
    }
}


/// A character with an ASCII upper-case letter folded to lower case.
pub open spec fn ascii_lower_char(c: char) -> char {
    if 'A' <= c && c <= 'Z' {
        ((c as int) + 32) as char
    } else {
        c
    }
}

/// A sequence with every ASCII upper-case letter folded to lower case.
pub open spec fn spec_ascii_lower(s: Seq<char>) -> Seq<char> {
    s.map_values(|c: char| ascii_lower_char(c))
}

/// Fold the ASCII upper-case letters of `s` to lower case.
#[verifier::loop_isolation(false)]
pub fn ascii_lower(s: &str) -> (r: Vec<char>)
    ensures
        r@ == spec_ascii_lower(s@),
{
    let cs = chars_vec(s);
    let mut out: Vec<char> = Vec::new();
    let mut i: usize = 0;
    while i < cs.len()
        invariant
            0 <= i <= cs.len(),
            cs@ == s@,
            out@ =~= spec_ascii_lower(s@).take(i as int),
        decreases cs.len() - i,
    {
        let c = cs[i];
        let lowered: char = if 'A' <= c && c <= 'Z' {
            (((c as u32) + 32) as u8) as char
        } else {
            c
        };
        proof {
            assert('A' <= c && c <= 'Z' ==> (((c as u32) + 32) as u8) as char == ascii_lower_char(
                c,
            ));
            assert(spec_ascii_lower(s@)[i as int] == ascii_lower_char(c));
        }
        out.push(lowered);
        proof {
            assert(out@ =~= spec_ascii_lower(s@).take(i + 1));
        }
        i += 1;
    }
    proof {
        assert(spec_ascii_lower(s@).take(s@.len() as int) =~= spec_ascii_lower(s@));
    }
    out
}


/// Whether `needle` occurs as a contiguous subsequence of `hay`.
pub open spec fn spec_contains_seq(hay: Seq<char>, needle: Seq<char>) -> bool {
    exists|i: int|
        0 <= i <= hay.len() - needle.len() && #[trigger] hay.subrange(i, i + needle.len() as int)
            == needle
}

#[verifier::loop_isolation(false)]
fn match_at(hay: &Vec<char>, needle: &Vec<char>, i: usize) -> (r: bool)
    requires
        i + needle@.len() <= hay@.len(),
    ensures
        r == (hay@.subrange(i as int, i as int + needle@.len() as int) == needle@),
{
    let n = needle.len();
    let hay_len = hay.len();
    proof {
        assert(hay@.len() == hay_len);
    }
    let mut j: usize = 0;
    while j < n
        invariant
            0 <= j <= n,
            n == needle@.len(),
            i + n <= hay@.len(),
            hay@.len() == hay_len,
            forall|l: int| 0 <= l < j ==> hay@[i + l] == needle@[l],
        decreases n - j,
    {
        if hay[i + j] != needle[j] {
            proof {
                assert(hay@.subrange(i as int, i as int + n as int)[j as int] == hay@[i + j]);
            }
            return false;
        }
        j += 1;
    }
    proof {
        assert(hay@.subrange(i as int, i as int + n as int) =~= needle@);
    }
    true
}

/// Decide whether `needle` occurs inside `hay`.
#[verifier::loop_isolation(false)]
pub fn contains_chars(hay: &Vec<char>, needle: &Vec<char>) -> (r: bool)
    ensures
        r == spec_contains_seq(hay@, needle@),
{
    let n = needle.len();
    if n > hay.len() {
        return false;
    }
    if n == 0 {
        proof {
            assert(hay@.subrange(0, 0 + needle@.len() as int) =~= needle@);
        }
        return true;
    }
    let last = hay.len() - n;
    let mut i: usize = 0;
    while i <= last
        invariant
            0 <= i <= last + 1,
            last == hay@.len() - n,
            1 <= n == needle@.len(),
            forall|k: int|
                0 <= k < i ==> #[trigger] hay@.subrange(k, k + needle@.len() as int) != needle@,
        decreases last + 1 - i,
    {
        if match_at(hay, needle, i) {
            return true;
        }
        i += 1;
    }
    false
}

} // verus!
