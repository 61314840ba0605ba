//! The library's JSON model and a verified serializer.
//!
//! `JsonValue` is the executable value; `JsonVal` is its mathematical model,
//! reached through the view function [`jv`], and every contract speaks of
//! the model. Integers are carried as `i64`; a finite number that is not an
//! integer is carried as its decimal text (`Dec`), written to the output
//! verbatim. Objects are ordered lists of key/value pairs; binding an
//! existing key replaces the value in place, so keys stay unique and readers
//! observe the last write per key.

use vstd::prelude::*;

use crate::strutil::{eq_chars, chars_vec, string_from_chars, spec_i64_chars, push_i64_digits};

verus! {

#[derive(Debug)]
pub enum JsonValue {
    Null,
    Bool(bool),
    Int(i64),
    /// A finite, non-integral number, carried as decimal text.
    Dec(String),
    Str(String),
    Arr(Vec<JsonValue>),
    Obj(Vec<(String, JsonValue)>),
}

/// The mathematical model of a JSON value.
pub ghost enum JsonVal {
    Null,
    Bool(bool),
    Int(int),
    Dec(Seq<char>),
    Str(Seq<char>),
    Arr(Seq<JsonVal>),
    Obj(Seq<(Seq<char>, JsonVal)>),
}

/// The model of a value.
pub open spec fn jv(v: JsonValue) -> JsonVal
    decreases v,
{
    match v {
        JsonValue::Null => JsonVal::Null,
        JsonValue::Bool(b) => JsonVal::Bool(b),
        JsonValue::Int(i) => JsonVal::Int(i as int),
        JsonValue::Dec(t) => JsonVal::Dec(t@),
        JsonValue::Str(s) => JsonVal::Str(s@),
        JsonValue::Arr(items) => JsonVal::Arr(jv_list(items@)),
        JsonValue::Obj(pairs) => JsonVal::Obj(jv_members(pairs@)),
    }
}

/// The models of a sequence of values.
pub open spec fn jv_list(items: Seq<JsonValue>) -> Seq<JsonVal>
    decreases items,
{
    if items.len() == 0 {
        Seq::empty()
    } else {
        jv_list(items.drop_last()).push(jv(items.last()))
    }
}

/// The models of an object's members.
pub open spec fn jv_members(ps: Seq<(String, JsonValue)>) -> Seq<(Seq<char>, JsonVal)>
    decreases ps,
{
    if ps.len() == 0 {
        Seq::empty()
    } else {
        jv_members(ps.drop_last()).push((ps.last().0@, jv(ps.last().1)))
    }
}

pub broadcast proof fn lemma_jv_list_len(items: Seq<JsonValue>)
    ensures
        (#[trigger] jv_list(items)).len() == items.len(),
    decreases items.len(),
{
    if items.len() > 0 {
        lemma_jv_list_len(items.drop_last());
    }
}

pub broadcast proof fn lemma_jv_list_index(items: Seq<JsonValue>, i: int)
    requires
        0 <= i < items.len(),
    ensures
        #[trigger] jv_list(items)[i] == jv(items[i]),
    decreases items.len(),
{
    lemma_jv_list_len(items);
    if items.len() > 0 {
        lemma_jv_list_len(items.drop_last());
        if i < items.len() - 1 {
            lemma_jv_list_index(items.drop_last(), i);
        }
    }
}

pub broadcast proof fn lemma_jv_members_len(ps: Seq<(String, JsonValue)>)
    ensures
        (#[trigger] jv_members(ps)).len() == ps.len(),
    decreases ps.len(),
{
    if ps.len() > 0 {
        lemma_jv_members_len(ps.drop_last());
    }
}

pub broadcast proof fn lemma_jv_members_index(ps: Seq<(String, JsonValue)>, i: int)
    requires
        0 <= i < ps.len(),
    ensures
        #[trigger] jv_members(ps)[i] == (ps[i].0@, jv(ps[i].1)),
    decreases ps.len(),
{
    lemma_jv_members_len(ps);
    if ps.len() > 0 {
        lemma_jv_members_len(ps.drop_last());
        if i < ps.len() - 1 {
            lemma_jv_members_index(ps.drop_last(), i);
        }
    }
}

/// The lower-case hexadecimal digit character for a value below sixteen.
pub open spec fn hex_char(d: int) -> char {
    if d < 10 {
        crate::strutil::digit_char(d)
    } else if d == 10 {
        'a'
    } else if d == 11 {
        'b'
    } else if d == 12 {
        'c'
    } else if d == 13 {
        'd'
    } else if d == 14 {
        'e'
    } else {
        'f'
    }
}

/// How one character appears inside a JSON string literal.
pub open spec fn esc_char(c: char) -> Seq<char> {
    if c == '"' {
        seq!['\\', '"']
    } else if c == '\\' {
        seq!['\\', '\\']
    } else if c == '\u{8}' {
        seq!['\\', 'b']
    } else if c == '\u{c}' {
        seq!['\\', 'f']
    } else if c == '\n' {
        seq!['\\', 'n']
    } else if c == '\r' {
        seq!['\\', 'r']
    } else if c == '\t' {
        seq!['\\', 't']
    } else if (c as int) < 0x20 {
        seq!['\\', 'u', '0', '0', hex_char(c as int / 16), hex_char(c as int % 16)]
    } else {
        seq![c]
    }
}

/// The body of a JSON string literal: each character escaped in turn.
pub open spec fn esc_str(s: Seq<char>) -> Seq<char>
    decreases s.len(),
{
    if s.len() == 0 {
        Seq::empty()
    } else {
        esc_str(s.drop_last()) + esc_char(s.last())
    }
}

/// A quoted JSON string literal.
pub open spec fn spec_json_string(s: Seq<char>) -> Seq<char> {
    seq!['"'] + esc_str(s) + seq!['"']
}

/// The JSON text of a value.
pub open spec fn spec_json(v: JsonVal) -> Seq<char>
    decreases v,
{
    match v {
        JsonVal::Null => seq!['n', 'u', 'l', 'l'],
        JsonVal::Bool(b) => if b {
            seq!['t', 'r', 'u', 'e']
        } else {
            seq!['f', 'a', 'l', 's', 'e']
        },
        JsonVal::Int(i) => spec_i64_chars(i),
        JsonVal::Dec(t) => t,
        JsonVal::Str(s) => spec_json_string(s),
        JsonVal::Arr(items) => seq!['['] + spec_json_list(items) + seq![']'],
        JsonVal::Obj(pairs) => seq!['{'] + spec_json_members(pairs) + seq!['}'],
    }
}

/// The comma-separated JSON texts of a sequence of values.
pub open spec fn spec_json_list(vs: Seq<JsonVal>) -> Seq<char>
    decreases vs,
{
    if vs.len() == 0 {
        Seq::empty()
    } else if vs.len() == 1 {
        spec_json(vs.last())
    } else {
        spec_json_list(vs.drop_last()) + seq![','] + spec_json(vs.last())
    }
}

/// The comma-separated JSON texts of an object's members.
pub open spec fn spec_json_members(ps: Seq<(Seq<char>, JsonVal)>) -> Seq<char>
    decreases ps,
{
    if ps.len() == 0 {
        Seq::empty()
    } else if ps.len() == 1 {
        spec_json_member(ps.last())
    } else {
        spec_json_members(ps.drop_last()) + seq![','] + spec_json_member(ps.last())
    }
}

/// One object member: quoted key, colon, value.
pub open spec fn spec_json_member(p: (Seq<char>, JsonVal)) -> Seq<char>
    decreases p,
{
    spec_json_string(p.0) + seq![':'] + spec_json(p.1)
}

fn hex_char_exec(d: u32) -> (c: char)
    requires
        d < 16,
    ensures
        c == hex_char(d as int),
{
    if d == 0 {
        '0'
    } else if d == 1 {
        '1'
    } else if d == 2 {
        '2'
    } else if d == 3 {
        '3'
    } else if d == 4 {
        '4'
    } else if d == 5 {
        '5'
    } else if d == 6 {
        '6'
    } else if d == 7 {
        '7'
    } else if d == 8 {
        '8'
    } else if d == 9 {
        '9'
    } else if d == 10 {
        'a'
    } else if d == 11 {
        'b'
    } else if d == 12 {
        'c'
    } else if d == 13 {
        'd'
    } else if d == 14 {
        'e'
    } else {
        'f'
    }
}

/// Append the escaped form of one string-literal character.
fn push_esc_char(c: char, out: &mut Vec<char>)
    ensures
        final(out)@ == old(out)@ + esc_char(c),
{
    if c == '"' {
        out.push('\\');
        out.push('"');
    } else if c == '\\' {
        out.push('\\');
        out.push('\\');
    } else if c == '\u{8}' {
        out.push('\\');
        out.push('b');
    } else if c == '\u{c}' {
        out.push('\\');
        out.push('f');
    } else if c == '\n' {
        out.push('\\');
        out.push('n');
    } else if c == '\r' {
        out.push('\\');
        out.push('r');
    } else if c == '\t' {
        out.push('\\');
        out.push('t');
    } else if (c as u32) < 0x20 {
        out.push('\\');
        out.push('u');
        out.push('0');
        out.push('0');
        let hi = hex_char_exec((c as u32) / 16);
        out.push(hi);
        let lo = hex_char_exec((c as u32) % 16);
        out.push(lo);
    } else {
        out.push(c);
    }
}

/// Append a quoted JSON string literal for `s`.
#[verifier::loop_isolation(false)]
fn push_json_string(s: &str, out: &mut Vec<char>)
    ensures
        final(out)@ == old(out)@ + spec_json_string(s@),
{
    let cs = chars_vec(s);
    out.push('"');
    let mut i: usize = 0;
    while i < cs.len()
        invariant
            i <= cs.len(),
            cs@ == s@,
            out@ == old(out)@ + seq!['"'] + esc_str(s@.take(i as int)),
        decreases cs.len() - i,
    {
        let c = cs[i];
        proof {
            assert(s@.take(i + 1).drop_last() =~= s@.take(i as int));
            assert(s@.take(i + 1).last() == c);
        }
        push_esc_char(c, out);
        i += 1;
    }
    proof {
        assert(s@.take(s@.len() as int) =~= s@);
    }
    out.push('"');
}

/// Append the JSON text of `v`.
#[verifier::loop_isolation(false)]
pub fn push_json(v: &JsonValue, out: &mut Vec<char>)
    ensures
        final(out)@ == old(out)@ + spec_json(jv(*v)),
    decreases *v,
{
    broadcast use lemma_jv_list_len, lemma_jv_list_index, lemma_jv_members_len, lemma_jv_members_index;

    match v {
        JsonValue::Null => {
            out.push('n');
            out.push('u');
            out.push('l');
            out.push('l');
        },
        JsonValue::Bool(b) => {
            if *b {
                out.push('t');
                out.push('r');
                out.push('u');
                out.push('e');
            } else {
                out.push('f');
                out.push('a');
                out.push('l');
                out.push('s');
                out.push('e');
            }
        },
        JsonValue::Int(i) => {
            push_i64_digits(*i, out);
        },
        JsonValue::Dec(t) => {
            let cs = chars_vec(t.as_str());
            let mut j: usize = 0;
            while j < cs.len()
                invariant
                    j <= cs.len(),
                    cs@ == t@,
                    out@ == old(out)@ + t@.take(j as int),
                decreases cs.len() - j,
            {
                out.push(cs[j]);
                proof {
                    assert(t@.take(j + 1) =~= t@.take(j as int).push(t@[j as int]));
                }
                j += 1;
            }
            proof {
                assert(t@.take(t@.len() as int) =~= t@);
            }
        },
        JsonValue::Str(s) => {
            push_json_string(s.as_str(), out);
        },
        JsonValue::Arr(items) => {
            let ghost model = jv_list(items@);
            out.push('[');
            let mut i: usize = 0;
            while i < items.len()
                invariant
                    i <= items.len(),
                    out@ == old(out)@ + seq!['['] + spec_json_list(model.take(i as int)),
                decreases items.len() - i,
            {
                if i > 0 {
                    out.push(',');
                }
                proof {
                    assert(decreases_to!(*v => (*v)->Arr_0@[i as int]));
                }
                push_json(&items[i], out);
                proof {
                    assert(model.take(i + 1).drop_last() =~= model.take(i as int));
                    assert(model.take(i + 1).last() == jv(items@[i as int]));
                    assert(out@ =~= old(out)@ + seq!['['] + spec_json_list(model.take(i + 1)));
                }
                i += 1;
            }
            proof {
                assert(model.take(items@.len() as int) =~= model);
            }
            out.push(']');
        },
        JsonValue::Obj(pairs) => {
            let ghost model = jv_members(pairs@);
            out.push('{');
            let mut i: usize = 0;
            while i < pairs.len()
                invariant
                    i <= pairs.len(),
                    out@ == old(out)@ + seq!['{'] + spec_json_members(model.take(i as int)),
                decreases pairs.len() - i,
            {
                if i > 0 {
                    out.push(',');
                }
                let k = &pairs[i].0;
                let val = &pairs[i].1;
                push_json_string(k.as_str(), out);
                out.push(':');
                proof {
                    assert(decreases_to!(*v => (*v)->Obj_0@[i as int].1));
                }
                push_json(val, out);
                proof {
                    assert(model.take(i + 1).drop_last() =~= model.take(i as int));
                    assert(model.take(i + 1).last() == model[i as int]);
                    assert(spec_json_member(model[i as int]) =~= spec_json_string(k@) + seq![':']
                        + spec_json(jv(*val)));
                    assert(out@ =~= old(out)@ + seq!['{'] + spec_json_members(model.take(i + 1)));
                }
                i += 1;
            }
            proof {
                assert(model.take(pairs@.len() as int) =~= model);
            }
            out.push('}');
        },
    }
}

/// The JSON text of a value, as a string.
pub fn to_json_string(v: &JsonValue) -> (r: String)
    ensures
        r@ == spec_json(jv(*v)),
{
    let mut out: Vec<char> = Vec::new();
    push_json(v, &mut out);
    string_from_chars(&out)
}

/// The JSON text of a value, as characters.
pub fn to_json_chars(v: &JsonValue) -> (r: Vec<char>)
    ensures
        r@ == spec_json(jv(*v)),
{
    let mut out: Vec<char> = Vec::new();
    push_json(v, &mut out);
    out
}

/// The value bound to `key` in an object's members: the first binding.
pub open spec fn jv_members_get(ps: Seq<(Seq<char>, JsonVal)>, key: Seq<char>) -> Option<JsonVal>
    decreases ps.len(),
{
    if ps.len() == 0 {
        None
    } else if ps[0].0 == key {
        Some(ps[0].1)
    } else {
        jv_members_get(ps.skip(1), key)
    }
}

/// The value bound to `key`, when the model is an object that binds it.
pub open spec fn jv_obj_get(m: JsonVal, key: Seq<char>) -> Option<JsonVal> {
    match m {
        JsonVal::Obj(pairs) => jv_members_get(pairs, key),
        _ => None,
    }
}

/// An object's members after binding `key` to `val`: the first existing
/// binding is replaced in place; absent that, the pair is appended.
pub open spec fn jv_members_set(
    ps: Seq<(Seq<char>, JsonVal)>,
    key: Seq<char>,
    val: JsonVal,
) -> Seq<(Seq<char>, JsonVal)>
    decreases ps.len(),
{
    if ps.len() == 0 {
        seq![(key, val)]
    } else if ps[0].0 == key {
        seq![(key, val)] + ps.skip(1)
    } else {
        seq![ps[0]] + jv_members_set(ps.skip(1), key, val)
    }
}

/// Look up `key` in `v`, when `v` is an object.
#[verifier::loop_isolation(false)]
pub fn obj_get<'a>(v: &'a JsonValue, key: &str) -> (r: Option<&'a JsonValue>)
    ensures
        match r {
            Some(x) => jv_obj_get(jv(*v), key@) == Some(jv(*x)),
            None => jv_obj_get(jv(*v), key@) is None,
        },
{
    broadcast use lemma_jv_members_len, lemma_jv_members_index;

    match v {
        JsonValue::Obj(pairs) => {
            let ghost mps = jv_members(pairs@);
            let kc = chars_vec(key);
            proof {
                assert(mps.skip(0) =~= mps);
            }
            let mut i: usize = 0;
            while i < pairs.len()
                invariant
                    i <= pairs.len(),
                    kc@ == key@,
                    jv_members_get(mps, key@) == jv_members_get(mps.skip(i as int), key@),
                decreases pairs.len() - i,
            {
                let pc = chars_vec(pairs[i].0.as_str());
                proof {
                    assert(mps.skip(i as int)[0] == mps[i as int]);
                    assert(mps.skip(i as int).skip(1) =~= mps.skip(i + 1));
                }
                if eq_chars(&pc, &kc) {
                    proof {
                        assert(jv_members_get(mps.skip(i as int), key@) == Some(mps[i as int].1));
                    }
                    return Some(&pairs[i].1);
                }
                i += 1;
            }
            proof {
                assert(mps.skip(mps.len() as int) =~= Seq::<(Seq<char>, JsonVal)>::empty());
            }
            None
        },
        _ => None,
    }
}

proof fn lemma_set_replaces_at(
    mps: Seq<(Seq<char>, JsonVal)>,
    i: int,
    key: Seq<char>,
    val: JsonVal,
)
    requires
        0 <= i < mps.len(),
        mps[i].0 == key,
        forall|j: int| 0 <= j < i ==> #[trigger] mps[j].0 != key,
    ensures
        jv_members_set(mps, key, val) =~= mps.update(i, (key, val)),
    decreases i,
{
    if i == 0 {
        assert(jv_members_set(mps, key, val) =~= mps.update(0, (key, val)));
    } else {
        let tail = mps.skip(1);
        assert(tail[i - 1] == mps[i]);
        assert forall|j: int| 0 <= j < i - 1 implies #[trigger] tail[j].0 != key by {
            assert(tail[j] == mps[j + 1]);
        }
        lemma_set_replaces_at(tail, i - 1, key, val);
        assert(jv_members_set(mps, key, val) =~= seq![mps[0]] + tail.update(i - 1, (key, val)));
        assert(seq![mps[0]] + tail.update(i - 1, (key, val)) =~= mps.update(i, (key, val)));
    }
}

proof fn lemma_set_appends(mps: Seq<(Seq<char>, JsonVal)>, key: Seq<char>, val: JsonVal)
    requires
        forall|j: int| 0 <= j < mps.len() ==> #[trigger] mps[j].0 != key,
    ensures
        jv_members_set(mps, key, val) =~= mps.push((key, val)),
    decreases mps.len(),
{
    if mps.len() > 0 {
        let tail = mps.skip(1);
        assert forall|j: int| 0 <= j < tail.len() implies #[trigger] tail[j].0 != key by {
            assert(tail[j] == mps[j + 1]);
        }
        lemma_set_appends(tail, key, val);
        assert(jv_members_set(mps, key, val) =~= seq![mps[0]] + tail.push((key, val)));
        assert(seq![mps[0]] + tail.push((key, val)) =~= mps.push((key, val)));
    }
}

/// Bind `key` to `val` in an object's member list, replacing the first
/// existing binding in place or appending a new pair.
#[verifier::loop_isolation(false)]
pub fn members_set(pairs: &mut Vec<(String, JsonValue)>, key: String, val: JsonValue)
    ensures
        jv_members(final(pairs)@) == jv_members_set(jv_members(old(pairs)@), key@, jv(val)),
{
    broadcast use lemma_jv_members_len, lemma_jv_members_index;

    let ghost mps = jv_members(pairs@);
    let kc = chars_vec(key.as_str());
    let mut i: usize = 0;
    while i < pairs.len()
        invariant
            i <= pairs.len(),
            kc@ == key@,
            pairs@ == old(pairs)@,
            mps == jv_members(pairs@),
            forall|j: int| 0 <= j < i ==> #[trigger] mps[j].0 != key@,
        decreases pairs.len() - i,
    {
        let pc = chars_vec(pairs[i].0.as_str());
        if eq_chars(&pc, &kc) {
            proof {
                assert(mps[i as int].0 == key@);
            }
            pairs[i] = (key, val);
            proof {
                lemma_set_replaces_at(mps, i as int, key@, jv(val));
                assert(jv_members(pairs@) =~= mps.update(i as int, (key@, jv(val))));
            }
            return ;
        }
        proof {
            assert(mps[i as int].0 == pairs@[i as int].0@);
        }
        i += 1;
    }
    pairs.push((key, val));
    proof {
        lemma_set_appends(mps, key@, jv(val));
        assert(jv_members(pairs@) =~= mps.push((key@, jv(val))));
    }
}

} // verus!
