//! The mathematical inverse of the serializer: a specification-level JSON
//! reader, and the round-trip law.
//!
//! The reader covers the texts the serializer emits: no insignificant
//! whitespace, strings with the standard escapes (`\uXXXX` for one scalar,
//! not a surrogate pair), numbers as an optional sign, digits, and an
//! optional fraction or exponent carried as text. The round-trip law states
//! that reading a serialized value back yields that value exactly.

use vstd::prelude::*;

use crate::json::{
    JsonVal, spec_json, spec_json_list, spec_json_members, spec_json_member, spec_json_string,
    esc_str, esc_char, hex_char,
};
use crate::strutil::{is_dec_digit, digit_val, all_digits, digits_val, spec_u64_digits, spec_i64_chars, digit_char};

verus! {

/// The characters a number is written with.
pub open spec fn num_char(c: char) -> bool {
    is_dec_digit(c) || c == '-' || c == '+' || c == '.' || c == 'e' || c == 'E'
}

/// The length of the longest numeric prefix of `s`.
pub open spec fn num_prefix_len(s: Seq<char>) -> int
    decreases s.len(),
{
    if s.len() == 0 || !num_char(s[0]) {
        0
    } else {
        1 + num_prefix_len(s.skip(1))
    }
}

/// Whether `t` is an optional minus sign followed by one or more digits.
pub open spec fn is_int_text(t: Seq<char>) -> bool {
    if t.len() > 0 && t[0] == '-' {
        t.len() > 1 && all_digits(t.skip(1))
    } else {
        t.len() > 0 && all_digits(t)
    }
}

/// The value of an integer numeral.
pub open spec fn int_text_val(t: Seq<char>) -> int {
    if t.len() > 0 && t[0] == '-' {
        -(digits_val(t.skip(1)) as int)
    } else {
        digits_val(t) as int
    }
}

/// What a numeric text denotes: a 64-bit integer when it is one, and the
/// text itself otherwise.
pub open spec fn classify_number(t: Seq<char>) -> JsonVal {
    if is_int_text(t) && i64::MIN <= int_text_val(t) <= i64::MAX {
        JsonVal::Int(int_text_val(t))
    } else {
        JsonVal::Dec(t)
    }
}

/// The value of a hexadecimal digit character, or `-1`.
pub open spec fn hex_val(c: char) -> int {
    if is_dec_digit(c) {
        digit_val(c)
    } else if c == 'a' || c == 'A' {
        10
    } else if c == 'b' || c == 'B' {
        11
    } else if c == 'c' || c == 'C' {
        12
    } else if c == 'd' || c == 'D' {
        13
    } else if c == 'e' || c == 'E' {
        14
    } else if c == 'f' || c == 'F' {
        15
    } else {
        -1
    }
}

/// The character a simple escape denotes.
pub open spec fn unescape(c: char) -> Option<char> {
    if c == '"' {
        Some('"')
    } else if c == '\\' {
        Some('\\')
    } else if c == '/' {
        Some('/')
    } else if c == 'b' {
        Some('\u{8}')
    } else if c == 'f' {
        Some('\u{c}')
    } else if c == 'n' {
        Some('\n')
    } else if c == 'r' {
        Some('\r')
    } else if c == 't' {
        Some('\t')
    } else {
        None
    }
}

/// Read a string literal's body up to and including its closing quote:
/// the content read and the characters consumed.
pub open spec fn read_string_body(s: Seq<char>) -> Option<(Seq<char>, int)>
    decreases s.len(),
{
    if s.len() == 0 {
        None
    } else if s[0] == '"' {
        Some((Seq::empty(), 1))
    } else if s[0] == '\\' {
        if s.len() < 2 {
            None
        } else if s[1] == 'u' {
            if s.len() < 6 {
                None
            } else {
                let code = hex_val(s[2]) * 4096 + hex_val(s[3]) * 256 + hex_val(s[4]) * 16
                    + hex_val(s[5]);
                if hex_val(s[2]) >= 0 && hex_val(s[3]) >= 0 && hex_val(s[4]) >= 0 && hex_val(s[5])
                    >= 0 && code < 0xD800 {
                    match read_string_body(s.skip(6)) {
                        Some((rest, k)) => Some((seq![code as char] + rest, 6 + k)),
                        None => None,
                    }
                } else {
                    None
                }
            }
        } else {
            match unescape(s[1]) {
                Some(c) => match read_string_body(s.skip(2)) {
                    Some((rest, k)) => Some((seq![c] + rest, 2 + k)),
                    None => None,
                },
                None => None,
            }
        }
    } else {
        match read_string_body(s.skip(1)) {
            Some((rest, k)) => Some((seq![s[0]] + rest, 1 + k)),
            None => None,
        }
    }
}

/// Read one JSON value from the head of `s`: the value and the characters
/// consumed.
pub open spec fn read_value(s: Seq<char>) -> Option<(JsonVal, int)>
    decreases s.len(), 2int,
{
    if s.len() == 0 {
        None
    } else if s[0] == 'n' {
        if s.len() >= 4 && s.subrange(0, 4) == seq!['n', 'u', 'l', 'l'] {
            Some((JsonVal::Null, 4))
        } else {
            None
        }
    } else if s[0] == 't' {
        if s.len() >= 4 && s.subrange(0, 4) == seq!['t', 'r', 'u', 'e'] {
            Some((JsonVal::Bool(true), 4))
        } else {
            None
        }
    } else if s[0] == 'f' {
        if s.len() >= 5 && s.subrange(0, 5) == seq!['f', 'a', 'l', 's', 'e'] {
            Some((JsonVal::Bool(false), 5))
        } else {
            None
        }
    } else if s[0] == '"' {
        match read_string_body(s.skip(1)) {
            Some((content, k)) => Some((JsonVal::Str(content), 1 + k)),
            None => None,
        }
    } else if s[0] == '[' {
        if s.len() >= 2 && s[1] == ']' {
            Some((JsonVal::Arr(Seq::empty()), 2))
        } else {
            match read_elements(s.skip(1)) {
                Some((items, k)) => Some((JsonVal::Arr(items), 1 + k)),
                None => None,
            }
        }
    } else if s[0] == '{' {
        if s.len() >= 2 && s[1] == '}' {
            Some((JsonVal::Obj(Seq::empty()), 2))
        } else {
            match read_members(s.skip(1)) {
                Some((ps, k)) => Some((JsonVal::Obj(ps), 1 + k)),
                None => None,
            }
        }
    } else if s[0] == '-' || is_dec_digit(s[0]) {
        let n = num_prefix_len(s);
        Some((classify_number(s.take(n)), n))
    } else {
        None
    }
}

/// Read one or more comma-separated values followed by `]`: the values and
/// the characters consumed, closing bracket included.
pub open spec fn read_elements(s: Seq<char>) -> Option<(Seq<JsonVal>, int)>
    decreases s.len(), 3int,
{
    match read_value(s) {
        None => None,
        Some((v, k0)) => {
            let k = if k0 < 1 {
                1
            } else {
                k0
            };
            if k >= s.len() {
                None
            } else if s[k] == ']' {
                Some((seq![v], k + 1))
            } else if s[k] == ',' {
                match read_elements(s.skip(k + 1)) {
                    Some((rest, k2)) => Some((seq![v] + rest, k + 1 + k2)),
                    None => None,
                }
            } else {
                None
            }
        },
    }
}

/// Read one or more comma-separated members followed by `}`: the members
/// and the characters consumed, closing brace included.
pub open spec fn read_members(s: Seq<char>) -> Option<(Seq<(Seq<char>, JsonVal)>, int)>
    decreases s.len(), 3int,
{
    if s.len() == 0 || s[0] != '"' {
        None
    } else {
        match read_string_body(s.skip(1)) {
            None => None,
            Some((key, k0)) => {
                let k = 1 + (if k0 < 1 {
                    1
                } else {
                    k0
                });
                if k >= s.len() || s[k] != ':' {
                    None
                } else {
                    match read_value(s.skip(k + 1)) {
                        None => None,
                        Some((v, k1)) => {
                            let kv = k + 1 + (if k1 < 1 {
                                1
                            } else {
                                k1
                            });
                            if kv >= s.len() {
                                None
                            } else if s[kv] == '}' {
                                Some((seq![(key, v)], kv + 1))
                            } else if s[kv] == ',' {
                                match read_members(s.skip(kv + 1)) {
                                    Some((rest, k2)) => Some(
                                        (seq![(key, v)] + rest, kv + 1 + k2),
                                    ),
                                    None => None,
                                }
                            } else {
                                None
                            }
                        },
                    }
                }
            },
        }
    }
}

/// Read a whole JSON text: the value it denotes, when the text is exactly
/// one value.
pub open spec fn read_json(s: Seq<char>) -> Option<JsonVal> {
    match read_value(s) {
        Some((v, k)) => if k == s.len() {
            Some(v)
        } else {
            None
        },
        None => None,
    }
}

/// Whether a decimal text is one the serializer may carry: numeric
/// characters shaped as a number, and not an integer the reader would
/// classify as one.
pub open spec fn wf_dec(t: Seq<char>) -> bool {
    &&& t.len() > 0
    &&& (t[0] == '-' || is_dec_digit(t[0]))
    &&& forall|j: int| 0 <= j < t.len() ==> num_char(#[trigger] t[j])
    &&& !(is_int_text(t) && i64::MIN <= int_text_val(t) <= i64::MAX)
}

/// The values the round-trip law covers: integers in 64-bit range, decimal
/// texts in canonical shape, and aggregates of such values.
pub open spec fn wf_json(v: JsonVal) -> bool
    decreases v,
{
    match v {
        JsonVal::Null => true,
        JsonVal::Bool(_) => true,
        JsonVal::Int(i) => i64::MIN <= i <= i64::MAX,
        JsonVal::Dec(t) => wf_dec(t),
        JsonVal::Str(_) => true,
        JsonVal::Arr(items) => forall|j: int| 0 <= j < items.len() ==> wf_json(#[trigger] items[j]),
        JsonVal::Obj(ps) => forall|j: int| 0 <= j < ps.len() ==> wf_json(#[trigger] ps[j].1),
    }
}


proof fn lemma_digits_roundtrip(n: nat)
    ensures
        spec_u64_digits(n).len() >= 1,
        all_digits(spec_u64_digits(n)),
        digits_val(spec_u64_digits(n)) == n,
        is_dec_digit(spec_u64_digits(n)[0]),
    decreases n,
{
    if n < 10 {
        assert(spec_u64_digits(n) =~= seq![digit_char(n as int)]);
        assert(is_dec_digit(digit_char(n as int)));
        assert(digit_val(digit_char(n as int)) == n);
        assert(digits_val(seq![digit_char(n as int)]) == n) by {
            assert(seq![digit_char(n as int)].drop_last() =~= Seq::<char>::empty());
            assert(digits_val(Seq::<char>::empty()) == 0);
            assert(seq![digit_char(n as int)].last() == digit_char(n as int));
        }
    } else {
        lemma_digits_roundtrip(n / 10);
        let prefix = spec_u64_digits(n / 10);
        let whole = prefix.push(digit_char((n % 10) as int));
        assert(whole.drop_last() =~= prefix);
        assert(whole.last() == digit_char((n % 10) as int));
        assert(is_dec_digit(digit_char((n % 10) as int)));
        assert forall|j: int| 0 <= j < whole.len() implies is_dec_digit(#[trigger] whole[j]) by {
            if j < prefix.len() {
                assert(whole[j] == prefix[j]);
            }
        }
        assert(digits_val(whole) == digits_val(prefix) * 10 + (n % 10));
        assert(whole[0] == prefix[0]);
    }
}

proof fn lemma_digit_not_structural(c: char)
    requires
        is_dec_digit(c),
    ensures
        c != 'n' && c != 't' && c != 'f' && c != '"' && c != '[' && c != '{',
        num_char(c),
{
}

/// Integer rendering is an integer numeral with the same value, written
/// with numeric characters only.
proof fn lemma_int_text_of(i: int)
    requires
        i64::MIN <= i <= i64::MAX,
    ensures
        spec_i64_chars(i).len() >= 1,
        is_int_text(spec_i64_chars(i)),
        int_text_val(spec_i64_chars(i)) == i,
        spec_i64_chars(i)[0] == '-' || is_dec_digit(spec_i64_chars(i)[0]),
        forall|j: int|
            0 <= j < spec_i64_chars(i).len() ==> num_char(#[trigger] spec_i64_chars(i)[j]),
        classify_number(spec_i64_chars(i)) == JsonVal::Int(i),
{
    let t = spec_i64_chars(i);
    if i < 0 {
        lemma_digits_roundtrip((-i) as nat);
        let digits = spec_u64_digits((-i) as nat);
        assert(t =~= seq!['-'] + digits);
        assert(t.skip(1) =~= digits);
        assert(t[0] == '-');
        assert forall|j: int| 0 <= j < t.len() implies num_char(#[trigger] t[j]) by {
            if j > 0 {
                assert(t[j] == digits[j - 1]);
            }
        }
    } else {
        lemma_digits_roundtrip(i as nat);
        assert(t == spec_u64_digits(i as nat));
        assert(t[0] != '-');
        assert forall|j: int| 0 <= j < t.len() implies num_char(#[trigger] t[j]) by {
            assert(is_dec_digit(t[j]));
        }
    }
}

/// The numeric scan stops exactly at the end of a numeric text when what
/// follows is not numeric.
proof fn lemma_num_prefix_exact(t: Seq<char>, rest: Seq<char>)
    requires
        forall|j: int| 0 <= j < t.len() ==> num_char(#[trigger] t[j]),
        rest.len() == 0 || !num_char(rest[0]),
    ensures
        num_prefix_len(t + rest) == t.len(),
    decreases t.len(),
{
    let s = t + rest;
    if t.len() == 0 {
        assert(s =~= rest);
    } else {
        assert(s[0] == t[0]);
        assert(s.skip(1) =~= t.skip(1) + rest);
        assert forall|j: int| 0 <= j < t.skip(1).len() implies num_char(#[trigger] t.skip(1)[j]) by {
            assert(t.skip(1)[j] == t[j + 1]);
        }
        lemma_num_prefix_exact(t.skip(1), rest);
    }
}

/// A serialized value is never empty.
proof fn lemma_json_text_nonempty(v: JsonVal)
    requires
        wf_json(v),
    ensures
        spec_json(v).len() >= 1,
{
    match v {
        JsonVal::Int(i) => {
            lemma_int_text_of(i);
        },
        _ => {},
    }
}

/// `esc_str` decomposed at its head.
proof fn lemma_esc_str_head(sq: Seq<char>)
    requires
        sq.len() >= 1,
    ensures
        esc_str(sq) == esc_char(sq[0]) + esc_str(sq.skip(1)),
    decreases sq.len(),
{
    if sq.len() == 1 {
        assert(sq.drop_last() =~= Seq::<char>::empty());
        assert(sq.skip(1) =~= Seq::<char>::empty());
        assert(esc_str(sq) =~= esc_char(sq[0]) + esc_str(sq.skip(1)));
    } else {
        let front = sq.drop_last();
        lemma_esc_str_head(front);
        assert(front[0] == sq[0]);
        assert(sq.skip(1).drop_last() =~= front.skip(1));
        assert(sq.skip(1).last() == sq.last());
        assert(esc_str(sq.skip(1)) == esc_str(front.skip(1)) + esc_char(sq.last()));
        assert(esc_str(sq) =~= esc_char(sq[0]) + esc_str(sq.skip(1)));
    }
}

proof fn lemma_hex_of_nibble(x: int)
    requires
        0 <= x < 16,
    ensures
        hex_val(hex_char(x)) == x,
{
}

/// Reading the escaped form of one character recovers it and moves on.
proof fn lemma_read_esc_char(c: char, s2: Seq<char>, content: Seq<char>, k: int)
    requires
        read_string_body(s2) == Some((content, k)),
    ensures
        read_string_body(esc_char(c) + s2) == Some(
            (seq![c] + content, esc_char(c).len() as int + k),
        ),
{
    let s = esc_char(c) + s2;
    if c == '"' || c == '\\' {
        assert(s[0] == '\\');
        assert(s.len() >= 2);
        assert(s[1] == c);
        assert(s.skip(2) =~= s2);
    } else if c == '\u{8}' || c == '\u{c}' || c == '\n' || c == '\r' || c == '\t' {
        assert(s[0] == '\\');
        assert(s.len() >= 2);
        assert(unescape(s[1]) == Some(c));
        assert(s.skip(2) =~= s2);
    } else if (c as int) < 0x20 {
        assert(s[0] == '\\');
        assert(s[1] == 'u');
        assert(s.len() >= 6);
        assert(s[2] == '0' && s[3] == '0');
        assert(s[4] == hex_char(c as int / 16));
        assert(s[5] == hex_char(c as int % 16));
        lemma_hex_of_nibble(c as int / 16);
        lemma_hex_of_nibble(c as int % 16);
        assert(hex_val(s[2]) == 0 && hex_val(s[3]) == 0);
        let code = hex_val(s[2]) * 4096 + hex_val(s[3]) * 256 + hex_val(s[4]) * 16 + hex_val(
            s[5],
        );
        assert(code == c as int);
        assert(code < 0xD800);
        assert(code as char == c);
        assert(s.skip(6) =~= s2);
        assert(seq![code as char] + content =~= seq![c] + content);
    } else {
        assert(esc_char(c) =~= seq![c]);
        assert(s[0] == c);
        assert(s[0] != '"' && s[0] != '\\');
        assert(s.skip(1) =~= s2);
    }
}

/// Reading an escaped string body recovers the string.
proof fn lemma_read_esc_str(sq: Seq<char>, s2: Seq<char>, content: Seq<char>, k: int)
    requires
        read_string_body(s2) == Some((content, k)),
    ensures
        read_string_body(esc_str(sq) + s2) == Some((sq + content, esc_str(sq).len() as int + k)),
    decreases sq.len(),
{
    if sq.len() == 0 {
        assert(esc_str(sq) + s2 =~= s2);
        assert(sq + content =~= content);
    } else {
        lemma_esc_str_head(sq);
        lemma_read_esc_str(sq.skip(1), s2, content, k);
        lemma_read_esc_char(
            sq[0],
            esc_str(sq.skip(1)) + s2,
            sq.skip(1) + content,
            esc_str(sq.skip(1)).len() as int + k,
        );
        assert(esc_str(sq) + s2 =~= esc_char(sq[0]) + (esc_str(sq.skip(1)) + s2));
        assert(seq![sq[0]] + (sq.skip(1) + content) =~= sq + content);
    }
}

/// Reading a serialized string literal recovers the string.
proof fn lemma_read_string(sq: Seq<char>, rest: Seq<char>)
    ensures
        read_string_body(esc_str(sq) + seq!['"'] + rest) == Some(
            (sq, esc_str(sq).len() as int + 1),
        ),
{
    let quoted = seq!['"'] + rest;
    assert(quoted[0] == '"');
    assert(read_string_body(quoted) == Some((Seq::<char>::empty(), 1int)));
    lemma_read_esc_str(sq, quoted, Seq::empty(), 1);
    assert(esc_str(sq) + seq!['"'] + rest =~= esc_str(sq) + quoted);
    assert(sq + Seq::<char>::empty() =~= sq);
}


/// `spec_json_list` decomposed at its head.
proof fn lemma_list_head(items: Seq<JsonVal>)
    requires
        items.len() >= 1,
    ensures
        spec_json_list(items) == spec_json(items[0]) + (if items.len() == 1 {
            Seq::<char>::empty()
        } else {
            seq![','] + spec_json_list(items.skip(1))
        }),
    decreases items.len(),
{
    if items.len() == 1 {
        assert(spec_json_list(items) == spec_json(items.last()));
        assert(items.last() == items[0]);
        assert(spec_json_list(items) =~= spec_json(items[0]) + Seq::<char>::empty());
    } else {
        let front = items.drop_last();
        lemma_list_head(front);
        assert(front[0] == items[0]);
        assert(items.skip(1).drop_last() =~= front.skip(1));
        assert(items.skip(1).last() == items.last());
        if items.len() == 2 {
            assert(spec_json_list(front) == spec_json(items[0]) + Seq::<char>::empty());
            assert(spec_json_list(items.skip(1)) == spec_json(items.last()));
            assert(spec_json_list(items) =~= spec_json(items[0]) + (seq![','] + spec_json_list(
                items.skip(1),
            )));
        } else {
            assert(spec_json_list(items.skip(1)) == spec_json_list(front.skip(1)) + seq![',']
                + spec_json(items.last()));
            assert(spec_json_list(items) =~= spec_json(items[0]) + (seq![','] + spec_json_list(
                items.skip(1),
            )));
        }
    }
}

/// `spec_json_members` decomposed at its head.
proof fn lemma_members_head(ps: Seq<(Seq<char>, JsonVal)>)
    requires
        ps.len() >= 1,
    ensures
        spec_json_members(ps) == spec_json_member(ps[0]) + (if ps.len() == 1 {
            Seq::<char>::empty()
        } else {
            seq![','] + spec_json_members(ps.skip(1))
        }),
    decreases ps.len(),
{
    if ps.len() == 1 {
        assert(spec_json_members(ps) == spec_json_member(ps.last()));
        assert(ps.last() == ps[0]);
        assert(spec_json_members(ps) =~= spec_json_member(ps[0]) + Seq::<char>::empty());
    } else {
        let front = ps.drop_last();
        lemma_members_head(front);
        assert(front[0] == ps[0]);
        assert(ps.skip(1).drop_last() =~= front.skip(1));
        assert(ps.skip(1).last() == ps.last());
        if ps.len() == 2 {
            assert(spec_json_members(front) == spec_json_member(ps[0]) + Seq::<char>::empty());
            assert(spec_json_members(ps.skip(1)) == spec_json_member(ps.last()));
            assert(spec_json_members(ps) =~= spec_json_member(ps[0]) + (seq![',']
                + spec_json_members(ps.skip(1))));
        } else {
            assert(spec_json_members(ps.skip(1)) == spec_json_members(front.skip(1)) + seq![',']
                + spec_json_member(ps.last()));
            assert(spec_json_members(ps) =~= spec_json_member(ps[0]) + (seq![',']
                + spec_json_members(ps.skip(1))));
        }
    }
}

/// The round-trip law: reading a serialized value back yields exactly that
/// value, consuming exactly its text. What follows may be anything that
/// does not begin with a numeric character (which would extend a trailing
/// number).
#[verifier::rlimit(80)]
pub proof fn lemma_json_round_trip(v: JsonVal, rest: Seq<char>)
    requires
        wf_json(v),
        rest.len() == 0 || !num_char(rest[0]),
    ensures
        read_value(spec_json(v) + rest) == Some((v, spec_json(v).len() as int)),
    decreases v, 0int,
{
    let s = spec_json(v) + rest;
    match v {
        JsonVal::Null => {
            assert(s[0] == 'n');
            assert(s.subrange(0, 4) =~= seq!['n', 'u', 'l', 'l']);
        },
        JsonVal::Bool(b) => {
            if b {
                assert(s[0] == 't');
                assert(s.subrange(0, 4) =~= seq!['t', 'r', 'u', 'e']);
            } else {
                assert(s[0] == 'f');
                assert(s.subrange(0, 5) =~= seq!['f', 'a', 'l', 's', 'e']);
            }
        },
        JsonVal::Int(i) => {
            lemma_int_text_of(i);
            let t = spec_i64_chars(i);
            assert(s[0] == t[0]);
            if is_dec_digit(s[0]) {
                lemma_digit_not_structural(s[0]);
            }
            assert(s[0] == '-' || is_dec_digit(s[0]));
            assert(s[0] != 'n' && s[0] != 't' && s[0] != 'f' && s[0] != '"' && s[0] != '['
                && s[0] != '{');
            lemma_num_prefix_exact(t, rest);
            assert(num_prefix_len(s) == t.len());
            assert(s.take(t.len() as int) =~= t);
        },
        JsonVal::Dec(t) => {
            assert(s[0] == t[0]);
            if is_dec_digit(s[0]) {
                lemma_digit_not_structural(s[0]);
            }
            assert(s[0] != 'n' && s[0] != 't' && s[0] != 'f' && s[0] != '"' && s[0] != '['
                && s[0] != '{');
            lemma_num_prefix_exact(t, rest);
            assert(s.take(t.len() as int) =~= t);
            assert(classify_number(t) == JsonVal::Dec(t));
        },
        JsonVal::Str(sq) => {
            assert(s[0] == '"');
            assert(s.skip(1) =~= esc_str(sq) + seq!['"'] + rest);
            lemma_read_string(sq, rest);
            assert(spec_json(v).len() == 1 + esc_str(sq).len() + 1);
        },
        JsonVal::Arr(items) => {
            assert(s[0] == '[');
            if items.len() == 0 {
                assert(spec_json_list(items) =~= Seq::<char>::empty());
                assert(spec_json(v) =~= seq!['[', ']']);
                assert(s.len() >= 2);
                assert(s[1] == ']');
                assert(items =~= Seq::<JsonVal>::empty());
            } else {
                lemma_json_text_nonempty(items[0]);
                lemma_list_head(items);
                assert(spec_json_list(items).len() >= 1);
                assert(spec_json_list(items)[0] == spec_json(items[0])[0]);
                assert(s[1] == spec_json_list(items)[0]);
                // The list is nonempty, so the second character is not `]`:
                // it begins the first element, whose text never starts with `]`.
                lemma_first_char_not_closer(items[0]);
                assert(s[1] != ']');
                assert(s.skip(1) =~= spec_json_list(items) + seq![']'] + rest);
                lemma_read_elements_of(items, rest);
            }
        },
        JsonVal::Obj(ps) => {
            assert(s[0] == '{');
            if ps.len() == 0 {
                assert(spec_json_members(ps) =~= Seq::<char>::empty());
                assert(spec_json(v) =~= seq!['{', '}']);
                assert(s.len() >= 2);
                assert(s[1] == '}');
                assert(ps =~= Seq::<(Seq<char>, JsonVal)>::empty());
            } else {
                lemma_members_head(ps);
                assert(spec_json_member(ps[0])[0] == '"');
                assert(spec_json_members(ps)[0] == '"');
                assert(s[1] == '"');
                assert(s[1] != '}');
                assert(s.skip(1) =~= spec_json_members(ps) + seq!['}'] + rest);
                lemma_read_members_of(ps, rest);
            }
        },
    }
}

/// A serialized value never begins with a closing bracket or brace.
proof fn lemma_first_char_not_closer(v: JsonVal)
    requires
        wf_json(v),
    ensures
        spec_json(v).len() >= 1,
        spec_json(v)[0] != ']' && spec_json(v)[0] != '}' && spec_json(v)[0] != ':' && spec_json(
            v,
        )[0] != ',',
{
    match v {
        JsonVal::Int(i) => {
            lemma_int_text_of(i);
            let t = spec_i64_chars(i);
            if is_dec_digit(t[0]) {
            }
        },
        _ => {},
    }
}

/// Reading back serialized list elements followed by `]` yields the
/// elements in order.
#[verifier::rlimit(80)]
proof fn lemma_read_elements_of(items: Seq<JsonVal>, rest: Seq<char>)
    requires
        items.len() >= 1,
        forall|j: int| 0 <= j < items.len() ==> wf_json(#[trigger] items[j]),
    ensures
        read_elements(spec_json_list(items) + seq![']'] + rest) == Some(
            (items, spec_json_list(items).len() as int + 1),
        ),
    decreases items, 1int,
{
    let s = spec_json_list(items) + seq![']'] + rest;
    let v0 = items[0];
    lemma_list_head(items);
    lemma_json_text_nonempty(v0);
    let l0 = spec_json(v0).len() as int;
    if items.len() == 1 {
        let tail = seq![']'] + rest;
        assert(s =~= spec_json(v0) + tail);
        assert(tail[0] == ']');
        lemma_json_round_trip(v0, tail);
        assert(read_value(s) == Some((v0, l0)));
        assert(s[l0] == ']');
        assert(seq![v0] =~= items);
        assert(spec_json_list(items).len() == l0);
    } else {
        let tail = seq![','] + spec_json_list(items.skip(1)) + seq![']'] + rest;
        assert(s =~= spec_json(v0) + tail);
        assert(tail[0] == ',');
        lemma_json_round_trip(v0, tail);
        assert(read_value(s) == Some((v0, l0)));
        assert(s[l0] == ',');
        assert(s.skip(l0 + 1) =~= spec_json_list(items.skip(1)) + seq![']'] + rest);
        assert forall|j: int| 0 <= j < items.skip(1).len() implies wf_json(
            #[trigger] items.skip(1)[j],
        ) by {
            assert(items.skip(1)[j] == items[j + 1]);
        }
        lemma_read_elements_of(items.skip(1), rest);
        let l1 = spec_json_list(items.skip(1)).len() as int;
        assert(read_elements(s.skip(l0 + 1)) == Some((items.skip(1), l1 + 1)));
        assert(seq![v0] + items.skip(1) =~= items);
        assert(spec_json_list(items).len() == l0 + 1 + l1);
    }
}

/// Reading back serialized members followed by `}` yields the members in
/// order.
#[verifier::rlimit(80)]
proof fn lemma_read_members_of(ps: Seq<(Seq<char>, JsonVal)>, rest: Seq<char>)
    requires
        ps.len() >= 1,
        forall|j: int| 0 <= j < ps.len() ==> wf_json(#[trigger] ps[j].1),
    ensures
        read_members(spec_json_members(ps) + seq!['}'] + rest) == Some(
            (ps, spec_json_members(ps).len() as int + 1),
        ),
    decreases ps, 1int,
{
    let s = spec_json_members(ps) + seq!['}'] + rest;
    let key = ps[0].0;
    let v0 = ps[0].1;
    lemma_members_head(ps);
    lemma_json_text_nonempty(v0);
    let member = spec_json_member(ps[0]);
    let l0 = spec_json(v0).len() as int;
    let klen = spec_json_string(key).len() as int;
    assert(member =~= spec_json_string(key) + seq![':'] + spec_json(v0));
    assert(s[0] == '"');
    if ps.len() == 1 {
        let after_val = seq!['}'] + rest;
        assert(s =~= spec_json_string(key) + (seq![':'] + (spec_json(v0) + after_val)));
        assert(s.skip(1) =~= esc_str(key) + seq!['"'] + (seq![':'] + (spec_json(v0)
            + after_val)));
        lemma_read_string(key, seq![':'] + (spec_json(v0) + after_val));
        assert(read_string_body(s.skip(1)) == Some((key, esc_str(key).len() as int + 1)));
        let k = 1 + (esc_str(key).len() as int + 1);
        assert(k == klen);
        assert(s[k] == ':');
        assert(s.skip(k + 1) =~= spec_json(v0) + after_val);
        assert(after_val[0] == '}');
        lemma_json_round_trip(v0, after_val);
        let kv = k + 1 + l0;
        assert(s[kv] == '}');
        assert(seq![(key, v0)] =~= ps);
        assert(spec_json_members(ps).len() == klen + 1 + l0);
    } else {
        let after_val = seq![','] + spec_json_members(ps.skip(1)) + seq!['}'] + rest;
        assert(s =~= spec_json_string(key) + (seq![':'] + (spec_json(v0) + after_val)));
        assert(s.skip(1) =~= esc_str(key) + seq!['"'] + (seq![':'] + (spec_json(v0)
            + after_val)));
        lemma_read_string(key, seq![':'] + (spec_json(v0) + after_val));
        assert(read_string_body(s.skip(1)) == Some((key, esc_str(key).len() as int + 1)));
        let k = 1 + (esc_str(key).len() as int + 1);
        assert(k == klen);
        assert(s[k] == ':');
        assert(s.skip(k + 1) =~= spec_json(v0) + after_val);
        assert(after_val[0] == ',');
        lemma_json_round_trip(v0, after_val);
        let kv = k + 1 + l0;
        assert(s[kv] == ',');
        assert(s.skip(kv + 1) =~= spec_json_members(ps.skip(1)) + seq!['}'] + rest);
        assert forall|j: int| 0 <= j < ps.skip(1).len() implies wf_json(
            #[trigger] ps.skip(1)[j].1,
        ) by {
            assert(ps.skip(1)[j] == ps[j + 1]);
        }
        lemma_read_members_of(ps.skip(1), rest);
        let l1 = spec_json_members(ps.skip(1)).len() as int;
        assert(read_members(s.skip(kv + 1)) == Some((ps.skip(1), l1 + 1)));
        assert(seq![(key, v0)] + ps.skip(1) =~= ps);
        assert(spec_json_members(ps).len() == klen + 1 + l0 + 1 + l1);
    }
}

/// Reading a whole serialized text back yields the value itself: the
/// JSON body written for a value parses back to that value.
pub proof fn lemma_json_body_round_trip(v: JsonVal)
    requires
        wf_json(v),
    ensures
        read_json(spec_json(v)) == Some(v),
{
    lemma_json_round_trip(v, Seq::empty());
    assert(spec_json(v) + Seq::<char>::empty() =~= spec_json(v));
}

} // verus!
