//! Static action detection: constant propagation over response calls.
//!
//! An action file is parsed and bound by the front end into a [`Program`]:
//! every call expression, the symbol table, and the member writes the file
//! makes. Everything the analyzer decides on that model is verified here:
//! which calls are response calls, which expressions are provably constant,
//! what bytes they serialize to, and when a single static response may stand
//! for the whole action.
//!
//! The analyzer must never claim a dynamic response is static; where a value
//! cannot be pinned down it answers "not static". It is conservative about
//! numeric addition: a sum is folded only when both operands are integers
//! and the result is exact; anything else is treated as not static.

use vstd::prelude::*;

use crate::json::{
    JsonValue, JsonVal, jv, jv_members, jv_members_set, jv_obj_get, spec_json, to_json_string,
    members_set, obj_get, lemma_jv_members_len, lemma_jv_members_index,
};
use crate::strutil::{chars_vec, string_from_chars, spec_i64_chars, str_eq};

verus! {

/// The depth cap of static evaluation.
pub const MAX_EVAL_DEPTH: usize = 16;

/// A numeric literal: an integer in 64-bit range, or the decimal text of a
/// finite non-integral number.
pub enum JsNum {
    Int(i64),
    Dec(String),
}

/// An object-literal property key.
pub enum PropKey {
    Ident(String),
    StrKey(String),
    NumKey(String),
    Computed,
}

/// An object-literal property.
pub enum ObjectProp {
    Prop(PropKey, Expr),
    Spread,
}

/// An array-literal element.
pub enum ArrayElem {
    Item(Expr),
    Spread,
    Hole,
}

/// An expression, as far as the analyzer reads it; anything else is
/// `Opaque` and never static.
pub enum Expr {
    StrLit(String),
    NumLit(JsNum),
    BoolLit(bool),
    NullLit,
    Object(Vec<ObjectProp>),
    Array(Vec<ArrayElem>),
    Ident { name: String, symbol: Option<u32> },
    Template { quasis: Vec<Option<String>>, exprs: Vec<Expr> },
    Add(Box<Expr>, Box<Expr>),
    Neg(Box<Expr>),
    Paren(Box<Expr>),
    Member { object: Box<Expr>, prop: String },
    Opaque,
}

/// One call argument.
pub enum Arg {
    Expr(Expr),
    Spread,
}

/// One call expression: its callee and its arguments.
pub struct CallSite {
    pub callee: Expr,
    pub args: Vec<Arg>,
}

/// How a symbol is declared.
pub enum DeclKind {
    VarInit(Expr),
    VarNoInit,
    Other,
}

/// One symbol: whether it is ever written after its declaration, and what
/// declared it.
pub struct SymbolInfo {
    pub written: bool,
    pub decl: DeclKind,
}

/// An action file, as the analyzer sees it: all call expressions in order,
/// the symbol table, and the symbols whose members the file assigns to or
/// deletes.
pub struct Program {
    pub calls: Vec<CallSite>,
    pub symbols: Vec<SymbolInfo>,
    pub member_assign_symbols: Vec<u32>,
    pub member_delete_symbols: Vec<u32>,
}

/// Fuel for the evaluation depth cap.
pub open spec fn eval_fuel(depth: int) -> int {
    if depth > MAX_EVAL_DEPTH {
        0
    } else {
        MAX_EVAL_DEPTH + 1 - depth
    }
}

/// Whether a method name mutates an aggregate it is called on.
pub open spec fn spec_is_mutating_name(s: Seq<char>) -> bool {
    ||| s == "push"@
    ||| s == "pop"@
    ||| s == "shift"@
    ||| s == "unshift"@
    ||| s == "splice"@
    ||| s == "sort"@
    ||| s == "reverse"@
    ||| s == "fill"@
    ||| s == "copyWithin"@
    ||| s == "set"@
    ||| s == "delete"@
    ||| s == "clear"@
}

/// Whether one call expression mutates the symbol: a mutating method called
/// on an identifier that resolves to it.
pub open spec fn spec_call_mutates(call: CallSite, sym: u32) -> bool {
    &&& call.callee matches Expr::Member { object, prop }
    &&& spec_is_mutating_name(prop@)
    &&& *object matches Expr::Ident { name: _, symbol: Some(s) } && s == sym
}

/// Whether the program mutates the aggregate bound to the symbol anywhere:
/// a mutating method call, a member assignment, or a member delete.
pub open spec fn spec_obj_mutated(prog: Program, sym: u32) -> bool {
    ||| exists|i: int| 0 <= i < prog.calls@.len() && spec_call_mutates(#[trigger] prog.calls@[i], sym)
    ||| prog.member_assign_symbols@.contains(sym)
    ||| prog.member_delete_symbols@.contains(sym)
}

/// The text a property key denotes, when it is static.
pub open spec fn spec_prop_key(k: PropKey) -> Option<Seq<char>> {
    match k {
        PropKey::Ident(s) => Some(s@),
        PropKey::StrKey(s) => Some(s@),
        PropKey::NumKey(s) => Some(s@),
        PropKey::Computed => None,
    }
}

/// The model of a numeric literal.
pub open spec fn spec_num(n: JsNum) -> JsonVal {
    match n {
        JsNum::Int(i) => JsonVal::Int(i as int),
        JsNum::Dec(t) => JsonVal::Dec(t@),
    }
}

/// The largest integer magnitude whose 64-bit floating point sum is exact.
pub open spec fn exact_add_bound() -> int {
    0x20000000000000
}

/// Folding `+`: string concatenation when a string is involved, integer
/// addition when both sides are integers and the sum is provably exact;
/// anything else is not static.
pub open spec fn spec_add(a: JsonVal, b: JsonVal) -> Option<JsonVal> {
    match (a, b) {
        (JsonVal::Str(x), JsonVal::Str(y)) => Some(JsonVal::Str(x + y)),
        (JsonVal::Str(x), JsonVal::Int(i)) => Some(JsonVal::Str(x + spec_i64_chars(i))),
        (JsonVal::Str(x), JsonVal::Dec(t)) => Some(JsonVal::Str(x + t)),
        (JsonVal::Int(i), JsonVal::Str(y)) => Some(JsonVal::Str(spec_i64_chars(i) + y)),
        (JsonVal::Dec(t), JsonVal::Str(y)) => Some(JsonVal::Str(t + y)),
        (JsonVal::Int(x), JsonVal::Int(y)) => if -exact_add_bound() <= x <= exact_add_bound()
            && -exact_add_bound() <= y <= exact_add_bound() && -exact_add_bound() <= x + y
            <= exact_add_bound() {
            Some(JsonVal::Int(x + y))
        } else {
            None
        },
        _ => None,
    }
}

/// Negating a number: integers flip sign; decimal text gains or loses a
/// leading minus.
pub open spec fn spec_neg(v: JsonVal) -> Option<JsonVal> {
    match v {
        JsonVal::Int(i) => if i == i64::MIN as int {
            None
        } else {
            Some(JsonVal::Int(-i))
        },
        JsonVal::Dec(t) => if t.len() > 0 && t[0] == '-' {
            Some(JsonVal::Dec(t.skip(1)))
        } else {
            Some(JsonVal::Dec(seq!['-'] + t))
        },
        _ => None,
    }
}

/// How a value appears inside a template literal; aggregates are not
/// static there.
pub open spec fn spec_tpl_coerce(v: JsonVal) -> Option<Seq<char>> {
    match v {
        JsonVal::Str(s) => Some(s),
        JsonVal::Int(i) => Some(spec_i64_chars(i)),
        JsonVal::Dec(t) => Some(t),
        JsonVal::Bool(b) => if b {
            Some(seq!['t', 'r', 'u', 'e'])
        } else {
            Some(seq!['f', 'a', 'l', 's', 'e'])
        },
        JsonVal::Null => Some(seq!['n', 'u', 'l', 'l']),
        _ => None,
    }
}

/// What static evaluation yields on an expression, if anything: the
/// depth-limited constant propagation over literals, aggregates, constant
/// identifiers, template literals, `+`, unary minus and parentheses.
pub open spec fn spec_eval(prog: Program, e: Expr, depth: int) -> Option<JsonVal>
    decreases eval_fuel(depth), e, 0int,
{
    if depth > MAX_EVAL_DEPTH {
        None
    } else {
        match e {
            Expr::StrLit(s) => Some(JsonVal::Str(s@)),
            Expr::NumLit(n) => Some(spec_num(n)),
            Expr::BoolLit(b) => Some(JsonVal::Bool(b)),
            Expr::NullLit => Some(JsonVal::Null),
            Expr::Object(props) => match spec_eval_props(prog, props@, depth) {
                Some(ms) => Some(JsonVal::Obj(ms)),
                None => None,
            },
            Expr::Array(elems) => match spec_eval_elems(prog, elems@, depth) {
                Some(vs) => Some(JsonVal::Arr(vs)),
                None => None,
            },
            Expr::Ident { name: _, symbol } => match symbol {
                None => None,
                Some(s) => if s >= prog.symbols@.len() {
                    None
                } else {
                    let info = prog.symbols@[s as int];
                    if info.written {
                        None
                    } else {
                        match info.decl {
                            DeclKind::VarInit(init) => {
                                let aggregate = init matches Expr::Object(_) || init
                                    matches Expr::Array(_);
                                if aggregate && spec_obj_mutated(prog, s) {
                                    None
                                } else {
                                    spec_eval(prog, init, depth + 1)
                                }
                            },
                            DeclKind::VarNoInit => Some(JsonVal::Null),
                            DeclKind::Other => None,
                        }
                    }
                },
            },
            Expr::Template { quasis, exprs } => match spec_eval_template(
                prog,
                quasis@,
                exprs@,
                depth,
            ) {
                Some(s) => Some(JsonVal::Str(s)),
                None => None,
            },
            Expr::Add(l, r) => match (spec_eval(prog, *l, depth + 1), spec_eval(
                prog,
                *r,
                depth + 1,
            )) {
                (Some(a), Some(b)) => spec_add(a, b),
                _ => None,
            },
            Expr::Neg(inner) => match spec_eval(prog, *inner, depth + 1) {
                Some(v) => spec_neg(v),
                None => None,
            },
            Expr::Paren(inner) => spec_eval(prog, *inner, depth),
            Expr::Member { .. } => None,
            Expr::Opaque => None,
        }
    }
}

/// Static evaluation of an object literal's properties, left to right:
/// every key and value must be static, spreads are not, and a repeated key
/// keeps the last binding.
pub open spec fn spec_eval_props(prog: Program, props: Seq<ObjectProp>, depth: int) -> Option<
    Seq<(Seq<char>, JsonVal)>,
>
    decreases eval_fuel(depth), props, 0int,
{
    if depth > MAX_EVAL_DEPTH {
        None
    } else if props.len() == 0 {
        Some(Seq::empty())
    } else {
        match spec_eval_props(prog, props.drop_last(), depth) {
            None => None,
            Some(ms) => match props.last() {
                ObjectProp::Spread => None,
                ObjectProp::Prop(key, value) => match spec_prop_key(key) {
                    None => None,
                    Some(ks) => match spec_eval(prog, value, depth + 1) {
                        None => None,
                        Some(v) => Some(jv_members_set(ms, ks, v)),
                    },
                },
            },
        }
    }
}

/// Static evaluation of an array literal's elements, left to right:
/// spreads are not static, holes become `null`.
pub open spec fn spec_eval_elems(prog: Program, elems: Seq<ArrayElem>, depth: int) -> Option<
    Seq<JsonVal>,
>
    decreases eval_fuel(depth), elems, 0int,
{
    if depth > MAX_EVAL_DEPTH {
        None
    } else if elems.len() == 0 {
        Some(Seq::empty())
    } else {
        match spec_eval_elems(prog, elems.drop_last(), depth) {
            None => None,
            Some(vs) => match elems.last() {
                ArrayElem::Spread => None,
                ArrayElem::Hole => Some(vs.push(JsonVal::Null)),
                ArrayElem::Item(e) => match spec_eval(prog, e, depth + 1) {
                    None => None,
                    Some(v) => Some(vs.push(v)),
                },
            },
        }
    }
}

/// Static evaluation of a template literal: quasis and coerced
/// interpolations concatenated, head first.
pub open spec fn spec_eval_template(
    prog: Program,
    quasis: Seq<Option<String>>,
    exprs: Seq<Expr>,
    depth: int,
) -> Option<Seq<char>>
    decreases eval_fuel(depth), exprs, quasis.len(),
{
    if depth > MAX_EVAL_DEPTH {
        None
    } else if quasis.len() == 0 {
        Some(Seq::empty())
    } else {
        match quasis[0] {
            None => None,
            Some(q) => {
                let piece = if exprs.len() > 0 {
                    match spec_eval(prog, exprs[0], depth + 1) {
                        None => None,
                        Some(v) => spec_tpl_coerce(v),
                    }
                } else {
                    Some(Seq::<char>::empty())
                };
                match piece {
                    None => None,
                    Some(p) => match spec_eval_template(
                        prog,
                        quasis.skip(1),
                        if exprs.len() > 0 {
                            exprs.skip(1)
                        } else {
                            exprs
                        },
                        depth,
                    ) {
                        None => None,
                        Some(rest) => Some(q@ + p + rest),
                    },
                }
            },
        }
    }
}

proof fn lemma_props_none_sticks(prog: Program, props: Seq<ObjectProp>, depth: int, i: int)
    requires
        0 <= i <= props.len(),
        spec_eval_props(prog, props.take(i), depth) is None,
    ensures
        spec_eval_props(prog, props, depth) is None,
    decreases props.len() - i,
{
    if i < props.len() {
        assert(props.take(i + 1).drop_last() =~= props.take(i));
        lemma_props_none_sticks(prog, props, depth, i + 1);
    } else {
        assert(props.take(i) =~= props);
    }
}

proof fn lemma_elems_none_sticks(prog: Program, elems: Seq<ArrayElem>, depth: int, i: int)
    requires
        0 <= i <= elems.len(),
        spec_eval_elems(prog, elems.take(i), depth) is None,
    ensures
        spec_eval_elems(prog, elems, depth) is None,
    decreases elems.len() - i,
{
    if i < elems.len() {
        assert(elems.take(i + 1).drop_last() =~= elems.take(i));
        lemma_elems_none_sticks(prog, elems, depth, i + 1);
    } else {
        assert(elems.take(i) =~= elems);
    }
}

/// Whether a method name is in the mutating set.
fn is_mutating_name(s: &str) -> (r: bool)
    ensures
        r == spec_is_mutating_name(s@),
{
    str_eq(s, "push") || str_eq(s, "pop") || str_eq(s, "shift") || str_eq(s, "unshift") || str_eq(
        s,
        "splice",
    ) || str_eq(s, "sort") || str_eq(s, "reverse") || str_eq(s, "fill") || str_eq(s, "copyWithin")
        || str_eq(s, "set") || str_eq(s, "delete") || str_eq(s, "clear")
}

fn call_mutates(call: &CallSite, sym: u32) -> (r: bool)
    ensures
        r == spec_call_mutates(*call, sym),
{
    match &call.callee {
        Expr::Member { object, prop } => {
            if is_mutating_name(prop.as_str()) {
                match &**object {
                    Expr::Ident { name: _, symbol: Some(s) } => *s == sym,
                    _ => false,
                }
            } else {
                false
            }
        },
        _ => false,
    }
}

#[verifier::loop_isolation(false)]
fn contains_u32(v: &Vec<u32>, x: u32) -> (r: bool)
    ensures
        r == v@.contains(x),
{
    let mut i: usize = 0;
    while i < v.len()
        invariant
            0 <= i <= v.len(),
            forall|j: int| 0 <= j < i ==> v@[j] != x,
        decreases v.len() - i,
    {
        if v[i] == x {
            return true;
        }
        i += 1;
    }
    false
}

/// Whether the program mutates the aggregate bound to `sym` anywhere in the
/// file: a mutating method call on it, an assignment to one of its members,
/// or a `delete` of one.
#[verifier::loop_isolation(false)]
pub fn is_object_mutated(prog: &Program, sym: u32) -> (r: bool)
    ensures
        r == spec_obj_mutated(*prog, sym),
{
    let mut i: usize = 0;
    while i < prog.calls.len()
        invariant
            0 <= i <= prog.calls@.len(),
            forall|j: int| 0 <= j < i ==> !spec_call_mutates(#[trigger] prog.calls@[j], sym),
        decreases prog.calls.len() - i,
    {
        if call_mutates(&prog.calls[i], sym) {
            return true;
        }
        i += 1;
    }
    contains_u32(&prog.member_assign_symbols, sym) || contains_u32(
        &prog.member_delete_symbols,
        sym,
    )
}

/// The text a property key denotes, when it is static.
pub fn property_key_to_string(k: &PropKey) -> (r: Option<String>)
    ensures
        match r {
            Some(s) => spec_prop_key(*k) == Some(s@),
            None => spec_prop_key(*k) is None,
        },
{
    match k {
        PropKey::Ident(s) => Some(s.clone()),
        PropKey::StrKey(s) => Some(s.clone()),
        PropKey::NumKey(s) => Some(s.clone()),
        PropKey::Computed => None,
    }
}

/// The value a numeric literal denotes.
fn num_to_value(n: &JsNum) -> (r: JsonValue)
    ensures
        jv(r) == spec_num(*n),
{
    match n {
        JsNum::Int(i) => JsonValue::Int(*i),
        JsNum::Dec(t) => JsonValue::Dec(t.clone()),
    }
}

/// Fold `+` over two static values.
fn add_values(a: &JsonValue, b: &JsonValue) -> (r: Option<JsonValue>)
    ensures
        match r {
            Some(v) => spec_add(jv(*a), jv(*b)) == Some(jv(v)),
            None => spec_add(jv(*a), jv(*b)) is None,
        },
{
    let bound: i64 = 0x20000000000000;
    match (a, b) {
        (JsonValue::Str(x), JsonValue::Str(y)) => {
            let mut s = x.clone();
            s.append(y.as_str());
            Some(JsonValue::Str(s))
        },
        (JsonValue::Str(x), JsonValue::Int(i)) => {
            let mut s = x.clone();
            let num = crate::strutil::i64_to_string(*i);
            s.append(num.as_str());
            Some(JsonValue::Str(s))
        },
        (JsonValue::Str(x), JsonValue::Dec(t)) => {
            let mut s = x.clone();
            s.append(t.as_str());
            Some(JsonValue::Str(s))
        },
        (JsonValue::Int(i), JsonValue::Str(y)) => {
            let mut s = crate::strutil::i64_to_string(*i);
            s.append(y.as_str());
            Some(JsonValue::Str(s))
        },
        (JsonValue::Dec(t), JsonValue::Str(y)) => {
            let mut s = t.clone();
            s.append(y.as_str());
            Some(JsonValue::Str(s))
        },
        (JsonValue::Int(x), JsonValue::Int(y)) => {
            if -bound <= *x && *x <= bound && -bound <= *y && *y <= bound {
                let sum = *x + *y;
                if -bound <= sum && sum <= bound {
                    Some(JsonValue::Int(sum))
                } else {
                    None
                }
            } else {
                None
            }
        },
        _ => None,
    }
}

/// Negate a static number.
fn neg_value(v: &JsonValue) -> (r: Option<JsonValue>)
    ensures
        match r {
            Some(out) => spec_neg(jv(*v)) == Some(jv(out)),
            None => spec_neg(jv(*v)) is None,
        },
{
    match v {
        JsonValue::Int(i) => {
            if *i == i64::MIN {
                None
            } else {
                Some(JsonValue::Int(-*i))
            }
        },
        JsonValue::Dec(t) => {
            let cs = chars_vec(t.as_str());
            if cs.len() > 0 && cs[0] == '-' {
                let rest = crate::strsplit::copy_range(&cs, 1, cs.len());
                proof {
                    assert(rest@ =~= t@.skip(1));
                }
                Some(JsonValue::Dec(string_from_chars(&rest)))
            } else {
                let mut s = String::from_str("-");
                s.append(t.as_str());
                proof {
                    reveal_strlit("-");
                    assert(s@ =~= seq!['-'] + t@);
                }
                Some(JsonValue::Dec(s))
            }
        },
        _ => None,
    }
}

/// How a value appears inside a template literal.
fn tpl_coerce(v: &JsonValue) -> (r: Option<String>)
    ensures
        match r {
            Some(s) => spec_tpl_coerce(jv(*v)) == Some(s@),
            None => spec_tpl_coerce(jv(*v)) is None,
        },
{
    match v {
        JsonValue::Str(s) => Some(s.clone()),
        JsonValue::Int(i) => Some(crate::strutil::i64_to_string(*i)),
        JsonValue::Dec(t) => Some(t.clone()),
        JsonValue::Bool(b) => {
            if *b {
                let s = String::from_str("true");
                proof {
                    reveal_strlit("true");
                    assert(s@ =~= seq!['t', 'r', 'u', 'e']);
                }
                Some(s)
            } else {
                let s = String::from_str("false");
                proof {
                    reveal_strlit("false");
                    assert(s@ =~= seq!['f', 'a', 'l', 's', 'e']);
                }
                Some(s)
            }
        },
        JsonValue::Null => {
            let s = String::from_str("null");
            proof {
                reveal_strlit("null");
                assert(s@ =~= seq!['n', 'u', 'l', 'l']);
            }
            Some(s)
        },
        _ => None,
    }
}

/// The sequence of interpolations left after `i` template steps.
pub open spec fn exprs_after(exprs: Seq<Expr>, i: int) -> Seq<Expr> {
    if i <= exprs.len() {
        exprs.skip(i)
    } else {
        exprs.skip(exprs.len() as int)
    }
}

/// Evaluate an expression statically: the depth-limited constant
/// propagation of the analyzer. `None` means the expression is not provably
/// constant.
#[verifier::loop_isolation(false)]
pub fn eval_static(prog: &Program, e: &Expr, depth: usize) -> (r: Option<JsonValue>)
    ensures
        match r {
            Some(v) => spec_eval(*prog, *e, depth as int) == Some(jv(v)),
            None => spec_eval(*prog, *e, depth as int) is None,
        },
    decreases eval_fuel(depth as int), *e, 0int,
{
    broadcast use lemma_jv_members_len, lemma_jv_members_index;

    if depth > MAX_EVAL_DEPTH {
        return None;
    }
    match e {
        Expr::StrLit(s) => Some(JsonValue::Str(s.clone())),
        Expr::NumLit(n) => Some(num_to_value(n)),
        Expr::BoolLit(b) => Some(JsonValue::Bool(*b)),
        Expr::NullLit => Some(JsonValue::Null),
        Expr::Object(props) => {
            let mut acc: Vec<(String, JsonValue)> = Vec::new();
            let mut i: usize = 0;
            proof {
                assert(props@.take(0) =~= Seq::<ObjectProp>::empty());
            }
            while i < props.len()
                invariant
                    0 <= i <= props@.len(),
                    depth <= MAX_EVAL_DEPTH,
                    spec_eval_props(*prog, props@.take(i as int), depth as int) == Some(
                        jv_members(acc@),
                    ),
                decreases props.len() - i,
            {
                proof {
                    assert(props@.take(i + 1).drop_last() =~= props@.take(i as int));
                    assert(props@.take(i + 1).last() == props@[i as int]);
                }
                match &props[i] {
                    ObjectProp::Spread => {
                        proof {
                            lemma_props_none_sticks(*prog, props@, depth as int, i + 1);
                        }
                        return None;
                    },
                    ObjectProp::Prop(key, value) => {
                        let ks = match property_key_to_string(key) {
                            Some(ks) => ks,
                            None => {
                                proof {
                                    lemma_props_none_sticks(*prog, props@, depth as int, i + 1);
                                }
                                return None;
                            },
                        };
                        let v = match eval_static(prog, value, depth + 1) {
                            Some(v) => v,
                            None => {
                                proof {
                                    lemma_props_none_sticks(*prog, props@, depth as int, i + 1);
                                }
                                return None;
                            },
                        };
                        let ghost prior = jv_members(acc@);
                        let ghost ks_view = ks@;
                        let ghost v_model = jv(v);
                        members_set(&mut acc, ks, v);
                        proof {
                            assert(jv_members(acc@) == jv_members_set(prior, ks_view, v_model));
                        }
                    },
                }
                i += 1;
            }
            proof {
                assert(props@.take(props@.len() as int) =~= props@);
            }
            Some(JsonValue::Obj(acc))
        },
        Expr::Array(elems) => {
            let mut acc: Vec<JsonValue> = Vec::new();
            let mut i: usize = 0;
            proof {
                assert(elems@.take(0) =~= Seq::<ArrayElem>::empty());
                assert(crate::json::jv_list(acc@) =~= Seq::<JsonVal>::empty());
            }
            while i < elems.len()
                invariant
                    0 <= i <= elems@.len(),
                    depth <= MAX_EVAL_DEPTH,
                    spec_eval_elems(*prog, elems@.take(i as int), depth as int) == Some(
                        crate::json::jv_list(acc@),
                    ),
                decreases elems.len() - i,
            {
                proof {
                    assert(elems@.take(i + 1).drop_last() =~= elems@.take(i as int));
                    assert(elems@.take(i + 1).last() == elems@[i as int]);
                }
                match &elems[i] {
                    ArrayElem::Spread => {
                        proof {
                            lemma_elems_none_sticks(*prog, elems@, depth as int, i + 1);
                        }
                        return None;
                    },
                    ArrayElem::Hole => {
                        let ghost prior = acc@;
                        acc.push(JsonValue::Null);
                        proof {
                            assert(acc@.drop_last() =~= prior);
                            assert(crate::json::jv_list(acc@) == crate::json::jv_list(prior).push(
                                jv(JsonValue::Null),
                            ));
                        }
                    },
                    ArrayElem::Item(item) => {
                        let v = match eval_static(prog, item, depth + 1) {
                            Some(v) => v,
                            None => {
                                proof {
                                    lemma_elems_none_sticks(*prog, elems@, depth as int, i + 1);
                                }
                                return None;
                            },
                        };
                        let ghost prior = acc@;
                        let ghost v_model = jv(v);
                        acc.push(v);
                        proof {
                            assert(acc@.drop_last() =~= prior);
                            assert(crate::json::jv_list(acc@) == crate::json::jv_list(prior).push(
                                v_model,
                            ));
                        }
                    },
                }
                i += 1;
            }
            proof {
                assert(elems@.take(elems@.len() as int) =~= elems@);
            }
            Some(JsonValue::Arr(acc))
        },
        Expr::Ident { name: _, symbol } => {
            match symbol {
                None => None,
                Some(s) => {
                    if (*s as usize) >= prog.symbols.len() {
                        return None;
                    }
                    let info = &prog.symbols[*s as usize];
                    if info.written {
                        return None;
                    }
                    match &info.decl {
                        DeclKind::VarInit(init) => {
                            let aggregate = match init {
                                Expr::Object(_) => true,
                                Expr::Array(_) => true,
                                _ => false,
                            };
                            if aggregate && is_object_mutated(prog, *s) {
                                None
                            } else {
                                eval_static(prog, init, depth + 1)
                            }
                        },
                        DeclKind::VarNoInit => Some(JsonValue::Null),
                        DeclKind::Other => None,
                    }
                },
            }
        },
        Expr::Template { quasis, exprs } => {
            let mut acc = String::new();
            let mut i: usize = 0;
            proof {
                assert(quasis@.skip(0) =~= quasis@);
                assert(exprs_after(exprs@, 0) =~= exprs@);
            }
            while i < quasis.len()
                invariant
                    0 <= i <= quasis@.len(),
                    depth <= MAX_EVAL_DEPTH,
                    spec_eval_template(*prog, quasis@, exprs@, depth as int) == (match
                        spec_eval_template(
                        *prog,
                        quasis@.skip(i as int),
                        exprs_after(exprs@, i as int),
                        depth as int,
                    ) {
                        Some(rest) => Some(acc@ + rest),
                        None => None,
                    }),
                decreases quasis.len() - i,
            {
                let ghost qs = quasis@.skip(i as int);
                let ghost es = exprs_after(exprs@, i as int);
                proof {
                    assert(qs[0] == quasis@[i as int]);
                }
                let q = match &quasis[i] {
                    Some(q) => q,
                    None => {
                        return None;
                    },
                };
                acc.append(q.as_str());
                if i < exprs.len() {
                    proof {
                        assert(es.len() > 0);
                        assert(es[0] == exprs@[i as int]);
                    }
                    let v = match eval_static(prog, &exprs[i], depth + 1) {
                        Some(v) => v,
                        None => {
                            return None;
                        },
                    };
                    let piece = match tpl_coerce(&v) {
                        Some(p) => p,
                        None => {
                            return None;
                        },
                    };
                    acc.append(piece.as_str());
                }
                proof {
                    assert(qs.skip(1) =~= quasis@.skip(i + 1));
                    if i < exprs@.len() {
                        assert(es.skip(1) =~= exprs_after(exprs@, i + 1));
                    } else {
                        assert(es.len() == 0);
                        assert(es =~= exprs_after(exprs@, i + 1));
                    }
                }
                i += 1;
            }
            proof {
                assert(quasis@.skip(quasis@.len() as int) =~= Seq::<Option<String>>::empty());
            }
            Some(JsonValue::Str(acc))
        },
        Expr::Add(l, r) => {
            let a = match eval_static(prog, l, depth + 1) {
                Some(a) => a,
                None => {
                    return None;
                },
            };
            let b = match eval_static(prog, r, depth + 1) {
                Some(b) => b,
                None => {
                    return None;
                },
            };
            add_values(&a, &b)
        },
        Expr::Neg(inner) => {
            match eval_static(prog, inner, depth + 1) {
                Some(v) => neg_value(&v),
                None => None,
            }
        },
        Expr::Paren(inner) => {
            proof {
                assert(decreases_to!(*e => (*e)->Paren_0));
            }
            eval_static(prog, inner, depth)
        },
        Expr::Member { .. } => None,
        Expr::Opaque => None,
    }
}


/// A response's content type.
#[derive(PartialEq, Eq, Structural, Clone, Copy, Debug)]
pub enum ContentType {
    Json,
    TextPlain,
    TextHtml,
    TextPlainUtf8,
}

impl ContentType {
    /// The content type as it appears on the wire.
    pub fn as_str(&self) -> (r: &'static str)
        ensures
            r@ == self.spec_str(),
    {
        match self {
            ContentType::Json => {
                let s = "application/json";
                proof {
                    reveal_strlit("application/json");
                }
                s
            },
            ContentType::TextPlain => {
                let s = "text/plain";
                proof {
                    reveal_strlit("text/plain");
                }
                s
            },
            ContentType::TextHtml => {
                let s = "text/html";
                proof {
                    reveal_strlit("text/html");
                }
                s
            },
            ContentType::TextPlainUtf8 => {
                let s = "text/plain; charset=utf-8";
                proof {
                    reveal_strlit("text/plain; charset=utf-8");
                }
                s
            },
        }
    }

    /// The wire text of this content type.
    pub open spec fn spec_str(&self) -> Seq<char> {
        match self {
            ContentType::Json => "application/json"@,
            ContentType::TextPlain => "text/plain"@,
            ContentType::TextHtml => "text/html"@,
            ContentType::TextPlainUtf8 => "text/plain; charset=utf-8"@,
        }
    }
}

/// A response call's method.
#[derive(PartialEq, Eq, Structural, Clone, Copy, Debug)]
pub enum RespMethod {
    Json,
    Text,
    Html,
}

/// A pre-computed HTTP response for a static action. The body is carried as
/// text; the transport encodes it as UTF-8 bytes.
pub struct StaticResponse {
    pub body: String,
    pub content_type: ContentType,
    pub status: u16,
    pub extra_headers: Vec<(String, String)>,
}

/// The model of a static response.
pub ghost struct SrVal {
    pub body: Seq<char>,
    pub content_type: ContentType,
    pub status: int,
    pub headers: Seq<(Seq<char>, Seq<char>)>,
}

/// The views of a list of string pairs.
pub open spec fn header_views(ps: Seq<(String, String)>) -> Seq<(Seq<char>, Seq<char>)>
    decreases ps,
{
    if ps.len() == 0 {
        Seq::empty()
    } else {
        header_views(ps.drop_last()).push((ps.last().0@, ps.last().1@))
    }
}

pub broadcast proof fn lemma_header_views_len(ps: Seq<(String, String)>)
    ensures
        (#[trigger] header_views(ps)).len() == ps.len(),
    decreases ps.len(),
{
    if ps.len() > 0 {
        lemma_header_views_len(ps.drop_last());
    }
}

pub broadcast proof fn lemma_header_views_index(ps: Seq<(String, String)>, i: int)
    requires
        0 <= i < ps.len(),
    ensures
        #[trigger] header_views(ps)[i] == (ps[i].0@, ps[i].1@),
    decreases ps.len(),
{
    lemma_header_views_len(ps);
    if ps.len() > 0 {
        lemma_header_views_len(ps.drop_last());
        if i < ps.len() - 1 {
            lemma_header_views_index(ps.drop_last(), i);
        }
    }
}

/// The model of a static response value.
pub open spec fn sr(r: StaticResponse) -> SrVal {
    SrVal {
        body: r.body@,
        content_type: r.content_type,
        status: r.status as int,
        headers: header_views(r.extra_headers@),
    }
}

/// Which response method a callee names: `t.response.json`, `t.response.text`
/// or `t.response.html`, as a chain of static member accesses on the free
/// name `t`.
pub open spec fn spec_detect_response(e: Expr) -> Option<RespMethod> {
    match e {
        Expr::Member { object, prop } => {
            let m = if prop@ == "json"@ {
                Some(RespMethod::Json)
            } else if prop@ == "text"@ {
                Some(RespMethod::Text)
            } else if prop@ == "html"@ {
                Some(RespMethod::Html)
            } else {
                None
            };
            match m {
                None => None,
                Some(meth) => match *object {
                    Expr::Member { object: o2, prop: p2 } => if p2@ == "response"@ {
                        match *o2 {
                            Expr::Ident { name, symbol: _ } => if name@ == "t"@ {
                                Some(meth)
                            } else {
                                None
                            },
                            _ => None,
                        }
                    } else {
                        None
                    },
                    _ => None,
                },
            }
        },
        _ => None,
    }
}

/// Detect a response call: the callee must be `t.response.json`,
/// `t.response.text` or `t.response.html`.
pub fn detect_response_method(callee: &Expr) -> (r: Option<RespMethod>)
    ensures
        r == spec_detect_response(*callee),
{
    match callee {
        Expr::Member { object, prop } => {
            let m: Option<RespMethod> = if str_eq(prop.as_str(), "json") {
                Some(RespMethod::Json)
            } else if str_eq(prop.as_str(), "text") {
                Some(RespMethod::Text)
            } else if str_eq(prop.as_str(), "html") {
                Some(RespMethod::Html)
            } else {
                None
            };
            match m {
                None => None,
                Some(meth) => match &**object {
                    Expr::Member { object: o2, prop: p2 } => {
                        if str_eq(p2.as_str(), "response") {
                            match &**o2 {
                                Expr::Ident { name, symbol: _ } => {
                                    if str_eq(name.as_str(), "t") {
                                        Some(meth)
                                    } else {
                                        None
                                    }
                                },
                                _ => None,
                            }
                        } else {
                            None
                        }
                    },
                    _ => None,
                },
            }
        },
        _ => None,
    }
}

/// The status an options value selects: its `status` member when it is an
/// integer between 100 and 599; otherwise 200.
pub open spec fn spec_status_of(opts: JsonVal) -> int {
    match jv_obj_get(opts, "status"@) {
        Some(JsonVal::Int(n)) => if 100 <= n <= 599 {
            n
        } else {
            200
        },
        _ => 200,
    }
}

/// The string-valued members of `headers`, in order.
pub open spec fn spec_header_pairs(hs: Seq<(Seq<char>, JsonVal)>) -> Seq<(Seq<char>, Seq<char>)>
    decreases hs,
{
    if hs.len() == 0 {
        Seq::empty()
    } else {
        spec_header_pairs(hs.drop_last()) + (match hs.last().1 {
            JsonVal::Str(s) => seq![(hs.last().0, s)],
            _ => Seq::empty(),
        })
    }
}

/// The extra headers an options value selects: the string members of its
/// `headers` object, in order.
pub open spec fn spec_headers_of(opts: JsonVal) -> Seq<(Seq<char>, Seq<char>)> {
    match jv_obj_get(opts, "headers"@) {
        Some(JsonVal::Obj(hs)) => spec_header_pairs(hs),
        _ => Seq::empty(),
    }
}

/// Extract the response options from an evaluated options value: the status
/// (clamped to 100-599, default 200) and the string-valued headers.
#[verifier::loop_isolation(false)]
pub fn extract_response_options(opts: &JsonValue) -> (r: (u16, Vec<(String, String)>))
    ensures
        r.0 as int == spec_status_of(jv(*opts)),
        header_views(r.1@) == spec_headers_of(jv(*opts)),
{
    broadcast use lemma_jv_members_len, lemma_jv_members_index, lemma_header_views_len, lemma_header_views_index;

    let status: u16 = match obj_get(opts, "status") {
        Some(sv) => match sv {
            JsonValue::Int(n) => {
                if 100 <= *n && *n <= 599 {
                    *n as u16
                } else {
                    200
                }
            },
            _ => 200,
        },
        None => 200,
    };
    let mut headers: Vec<(String, String)> = Vec::new();
    match obj_get(opts, "headers") {
        Some(hv) => {
            match hv {
                JsonValue::Obj(hs) => {
                    let ghost model = jv_members(hs@);
                    let mut i: usize = 0;
                    proof {
                        assert(model.take(0) =~= Seq::<(Seq<char>, JsonVal)>::empty());
                        assert(header_views(headers@) =~= Seq::<(Seq<char>, Seq<char>)>::empty());
                    }
                    while i < hs.len()
                        invariant
                            0 <= i <= hs@.len(),
                            model == jv_members(hs@),
                            header_views(headers@) == spec_header_pairs(model.take(i as int)),
                        decreases hs.len() - i,
                    {
                        proof {
                            assert(model.take(i + 1).drop_last() =~= model.take(i as int));
                            assert(model.take(i + 1).last() == model[i as int]);
                        }
                        match &hs[i].1 {
                            JsonValue::Str(s) => {
                                let ghost prior = headers@;
                                headers.push((hs[i].0.clone(), s.clone()));
                                proof {
                                    assert(headers@.drop_last() =~= prior);
                                    assert(header_views(headers@) =~= spec_header_pairs(
                                        model.take(i + 1),
                                    ));
                                }
                            },
                            _ => {
                                proof {
                                    assert(header_views(headers@) =~= spec_header_pairs(
                                        model.take(i + 1),
                                    ));
                                }
                            },
                        }
                        i += 1;
                    }
                    proof {
                        assert(model.take(hs@.len() as int) =~= model);
                    }
                },
                _ => {},
            }
        },
        None => {},
    }
    (status, headers)
}

/// What the analyzer concludes of one response call.
pub ghost enum CallOutcome {
    Static(SrVal),
    Dynamic,
    Skip,
}

/// The outcome of one response call: its body and options must evaluate
/// statically; `text` and `html` bodies must be strings; a call without
/// arguments is skipped.
pub open spec fn spec_analyze_call(prog: Program, call: CallSite, m: RespMethod) -> CallOutcome {
    if call.args@.len() == 0 {
        CallOutcome::Skip
    } else {
        match call.args@[0] {
            Arg::Spread => CallOutcome::Dynamic,
            Arg::Expr(body_e) => match spec_eval(prog, body_e, 0) {
                None => CallOutcome::Dynamic,
                Some(bv) => {
                    let opts = if call.args@.len() > 1 {
                        match call.args@[1] {
                            Arg::Spread => Some((200int, Seq::<(Seq<char>, Seq<char>)>::empty())),
                            Arg::Expr(oe) => match spec_eval(prog, oe, 0) {
                                None => None,
                                Some(ov) => Some((spec_status_of(ov), spec_headers_of(ov))),
                            },
                        }
                    } else {
                        Some((200int, Seq::<(Seq<char>, Seq<char>)>::empty()))
                    };
                    match opts {
                        None => CallOutcome::Dynamic,
                        Some((status, headers)) => match m {
                            RespMethod::Json => CallOutcome::Static(
                                SrVal {
                                    body: spec_json(bv),
                                    content_type: ContentType::Json,
                                    status,
                                    headers,
                                },
                            ),
                            RespMethod::Text => match bv {
                                JsonVal::Str(s) => CallOutcome::Static(
                                    SrVal {
                                        body: s,
                                        content_type: ContentType::TextPlain,
                                        status,
                                        headers,
                                    },
                                ),
                                _ => CallOutcome::Dynamic,
                            },
                            RespMethod::Html => match bv {
                                JsonVal::Str(s) => CallOutcome::Static(
                                    SrVal {
                                        body: s,
                                        content_type: ContentType::TextHtml,
                                        status,
                                        headers,
                                    },
                                ),
                                _ => CallOutcome::Dynamic,
                            },
                        },
                    }
                },
            },
        }
    }
}

/// What the analyzer concludes of one response call.
pub enum CallAnalysis {
    Static(StaticResponse),
    Dynamic,
    Skip,
}

/// Analyze one response call.
pub fn analyze_response_call(prog: &Program, call: &CallSite, m: RespMethod) -> (r: CallAnalysis)
    ensures
        match r {
            CallAnalysis::Static(resp) => spec_analyze_call(*prog, *call, m) == CallOutcome::Static(
                sr(resp),
            ),
            CallAnalysis::Dynamic => spec_analyze_call(*prog, *call, m) == CallOutcome::Dynamic,
            CallAnalysis::Skip => spec_analyze_call(*prog, *call, m) == CallOutcome::Skip,
        },
{
    if call.args.len() == 0 {
        return CallAnalysis::Skip;
    }
    let body_e = match &call.args[0] {
        Arg::Spread => {
            return CallAnalysis::Dynamic;
        },
        Arg::Expr(body_e) => body_e,
    };
    let bv = match eval_static(prog, body_e, 0) {
        None => {
            return CallAnalysis::Dynamic;
        },
        Some(bv) => bv,
    };
    let opts: (u16, Vec<(String, String)>) = if call.args.len() > 1 {
        match &call.args[1] {
            Arg::Spread => (200, Vec::new()),
            Arg::Expr(oe) => match eval_static(prog, oe, 0) {
                None => {
                    return CallAnalysis::Dynamic;
                },
                Some(ov) => extract_response_options(&ov),
            },
        }
    } else {
        (200, Vec::new())
    };
    let (status, headers) = opts;
    match m {
        RespMethod::Json => {
            let body = to_json_string(&bv);
            CallAnalysis::Static(
                StaticResponse { body, content_type: ContentType::Json, status, extra_headers: headers },
            )
        },
        RespMethod::Text => {
            match bv {
                JsonValue::Str(s) => CallAnalysis::Static(
                    StaticResponse {
                        body: s,
                        content_type: ContentType::TextPlain,
                        status,
                        extra_headers: headers,
                    },
                ),
                _ => CallAnalysis::Dynamic,
            }
        },
        RespMethod::Html => {
            match bv {
                JsonValue::Str(s) => CallAnalysis::Static(
                    StaticResponse {
                        body: s,
                        content_type: ContentType::TextHtml,
                        status,
                        extra_headers: headers,
                    },
                ),
                _ => CallAnalysis::Dynamic,
            }
        },
    }
}


/// The models of a list of static responses.
pub open spec fn sr_views(rs: Seq<StaticResponse>) -> Seq<SrVal>
    decreases rs,
{
    if rs.len() == 0 {
        Seq::empty()
    } else {
        sr_views(rs.drop_last()).push(sr(rs.last()))
    }
}

pub broadcast proof fn lemma_sr_views_len(rs: Seq<StaticResponse>)
    ensures
        (#[trigger] sr_views(rs)).len() == rs.len(),
    decreases rs.len(),
{
    if rs.len() > 0 {
        lemma_sr_views_len(rs.drop_last());
    }
}

pub broadcast proof fn lemma_sr_views_index(rs: Seq<StaticResponse>, i: int)
    requires
        0 <= i < rs.len(),
    ensures
        #[trigger] sr_views(rs)[i] == sr(rs[i]),
    decreases rs.len(),
{
    lemma_sr_views_len(rs);
    if rs.len() > 0 {
        lemma_sr_views_len(rs.drop_last());
        if i < rs.len() - 1 {
            lemma_sr_views_index(rs.drop_last(), i);
        }
    }
}

/// Scanning a file's calls in order: whether any response call is dynamic,
/// and the static responses collected.
pub open spec fn spec_scan(prog: Program, calls: Seq<CallSite>) -> (bool, Seq<SrVal>)
    decreases calls,
{
    if calls.len() == 0 {
        (false, Seq::empty())
    } else {
        let (d, rs) = spec_scan(prog, calls.drop_last());
        let c = calls.last();
        match spec_detect_response(c.callee) {
            None => (d, rs),
            Some(m) => match spec_analyze_call(prog, c, m) {
                CallOutcome::Static(r) => (d, rs.push(r)),
                CallOutcome::Dynamic => (true, rs),
                CallOutcome::Skip => (d, rs),
            },
        }
    }
}

/// What the analyzer concludes of a whole file: a single static response,
/// when every response call is static and they all agree.
pub open spec fn spec_analyze_program(prog: Program) -> Option<SrVal> {
    let (d, rs) = spec_scan(prog, prog.calls@);
    if d || rs.len() == 0 {
        None
    } else if forall|i: int| 0 <= i < rs.len() ==> #[trigger] rs[i] == rs[0] {
        Some(rs[0])
    } else {
        None
    }
}

/// Whether two static responses are the same: equal bytes, content type,
/// status and headers.
#[verifier::loop_isolation(false)]
pub fn static_response_eq(a: &StaticResponse, b: &StaticResponse) -> (r: bool)
    ensures
        r == (sr(*a) == sr(*b)),
{
    broadcast use lemma_header_views_len, lemma_header_views_index;

    if !a.body.eq(&b.body) {
        return false;
    }
    if a.content_type != b.content_type {
        return false;
    }
    if a.status != b.status {
        return false;
    }
    if a.extra_headers.len() != b.extra_headers.len() {
        proof {
            assert(sr(*a).headers.len() != sr(*b).headers.len());
        }
        return false;
    }
    let n = a.extra_headers.len();
    let mut i: usize = 0;
    while i < n
        invariant
            0 <= i <= n,
            n == a.extra_headers@.len() == b.extra_headers@.len(),
            forall|j: int|
                0 <= j < i ==> header_views(a.extra_headers@)[j] == header_views(
                    b.extra_headers@,
                )[j],
        decreases n - i,
    {
        let (ak, av) = &a.extra_headers[i];
        let (bk, bv) = &b.extra_headers[i];
        if !ak.eq(bk) || !av.eq(bv) {
            proof {
                assert(header_views(a.extra_headers@)[i as int] != header_views(
                    b.extra_headers@,
                )[i as int]);
                assert(sr(*a).headers != sr(*b).headers);
            }
            return false;
        }
        i += 1;
    }
    proof {
        assert(header_views(a.extra_headers@) =~= header_views(b.extra_headers@));
    }
    true
}

/// Analyze a whole file: every `t.response.*` call must be static and all
/// must produce the same response; that response is the action's fast path.
#[verifier::loop_isolation(false)]
pub fn analyze_program(prog: &Program) -> (r: Option<StaticResponse>)
    ensures
        match r {
            Some(resp) => spec_analyze_program(*prog) == Some(sr(resp)),
            None => spec_analyze_program(*prog) is None,
        },
{
    broadcast use lemma_sr_views_len, lemma_sr_views_index;

    let mut responses: Vec<StaticResponse> = Vec::new();
    let mut has_dynamic = false;
    let mut i: usize = 0;
    proof {
        assert(prog.calls@.take(0) =~= Seq::<CallSite>::empty());
        assert(sr_views(responses@) =~= Seq::<SrVal>::empty());
    }
    while i < prog.calls.len()
        invariant
            0 <= i <= prog.calls@.len(),
            spec_scan(*prog, prog.calls@.take(i as int)) == (has_dynamic, sr_views(responses@)),
        decreases prog.calls.len() - i,
    {
        proof {
            assert(prog.calls@.take(i + 1).drop_last() =~= prog.calls@.take(i as int));
            assert(prog.calls@.take(i + 1).last() == prog.calls@[i as int]);
        }
        let call = &prog.calls[i];
        match detect_response_method(&call.callee) {
            Some(m) => {
                match analyze_response_call(prog, call, m) {
                    CallAnalysis::Static(resp) => {
                        let ghost prior = responses@;
                        responses.push(resp);
                        proof {
                            assert(responses@.drop_last() =~= prior);
                            assert(sr_views(responses@) == sr_views(prior).push(
                                sr(responses@.last()),
                            ));
                        }
                    },
                    CallAnalysis::Dynamic => {
                        has_dynamic = true;
                    },
                    CallAnalysis::Skip => {},
                }
            },
            None => {},
        }
        i += 1;
    }
    proof {
        assert(prog.calls@.take(prog.calls@.len() as int) =~= prog.calls@);
    }
    if has_dynamic || responses.len() == 0 {
        return None;
    }
    let n = responses.len();
    let mut j: usize = 1;
    while j < n
        invariant
            1 <= j <= n,
            n == responses@.len(),
            forall|k: int| 0 <= k < j ==> #[trigger] sr_views(responses@)[k] == sr_views(responses@)[0],
        decreases n - j,
    {
        if !static_response_eq(&responses[j], &responses[0]) {
            proof {
                assert(sr_views(responses@)[j as int] != sr_views(responses@)[0]);
            }
            return None;
        }
        j += 1;
    }
    let first = responses.remove(0);
    proof {
        assert(sr(first) == sr_views(responses@.insert(0, first))[0]);
    }
    Some(first)
}

/// A registry of actions with a static fast-path response.
pub struct FastPathRegistry {
    actions: Vec<(String, StaticResponse)>,
}

/// The registered fast paths, by name, in registration order.
pub open spec fn fp_views(actions: Seq<(String, StaticResponse)>) -> Seq<(Seq<char>, SrVal)>
    decreases actions,
{
    if actions.len() == 0 {
        Seq::empty()
    } else {
        fp_views(actions.drop_last()).push((actions.last().0@, sr(actions.last().1)))
    }
}

pub broadcast proof fn lemma_fp_views_len(actions: Seq<(String, StaticResponse)>)
    ensures
        (#[trigger] fp_views(actions)).len() == actions.len(),
    decreases actions.len(),
{
    if actions.len() > 0 {
        lemma_fp_views_len(actions.drop_last());
    }
}

pub broadcast proof fn lemma_fp_views_index(actions: Seq<(String, StaticResponse)>, i: int)
    requires
        0 <= i < actions.len(),
    ensures
        #[trigger] fp_views(actions)[i] == (actions[i].0@, sr(actions[i].1)),
    decreases actions.len(),
{
    lemma_fp_views_len(actions);
    if actions.len() > 0 {
        lemma_fp_views_len(actions.drop_last());
        if i < actions.len() - 1 {
            lemma_fp_views_index(actions.drop_last(), i);
        }
    }
}

/// What building the registry from named programs yields: for each program
/// the analyzer accepts, its name and response, in order.
pub open spec fn spec_build_fast_paths(programs: Seq<(String, Program)>) -> Seq<(Seq<char>, SrVal)>
    decreases programs,
{
    if programs.len() == 0 {
        Seq::empty()
    } else {
        let rest = spec_build_fast_paths(programs.drop_last());
        match spec_analyze_program(programs.last().1) {
            Some(r) => rest.push((programs.last().0@, r)),
            None => rest,
        }
    }
}

/// The first registered fast path under a name.
pub open spec fn spec_fp_get(fps: Seq<(Seq<char>, SrVal)>, name: Seq<char>) -> Option<SrVal>
    decreases fps.len(),
{
    if fps.len() == 0 {
        None
    } else if fps[0].0 == name {
        Some(fps[0].1)
    } else {
        spec_fp_get(fps.skip(1), name)
    }
}

impl FastPathRegistry {
    /// The registered fast paths: names and response models, in
    /// registration order.
    pub closed spec fn contents(&self) -> Seq<(Seq<char>, SrVal)> {
        fp_views(self.actions@)
    }

    /// Build the registry from the actions' analyzed programs: each action
    /// whose program analyzes to a single static response is registered
    /// under its name.
    #[verifier::loop_isolation(false)]
    pub fn build(programs: Vec<(String, Program)>) -> (r: FastPathRegistry)
        ensures
            r.contents() == spec_build_fast_paths(programs@),
    {
        let mut actions: Vec<(String, StaticResponse)> = Vec::new();
        let mut i: usize = 0;
        proof {
            assert(programs@.take(0) =~= Seq::<(String, Program)>::empty());
            assert(fp_views(actions@) =~= Seq::<(Seq<char>, SrVal)>::empty());
        }
        while i < programs.len()
            invariant
                0 <= i <= programs@.len(),
                fp_views(actions@) == spec_build_fast_paths(programs@.take(i as int)),
            decreases programs.len() - i,
        {
            proof {
                assert(programs@.take(i + 1).drop_last() =~= programs@.take(i as int));
                assert(programs@.take(i + 1).last() == programs@[i as int]);
            }
            let (name, prog) = &programs[i];
            match analyze_program(prog) {
                Some(resp) => {
                    let ghost prior = actions@;
                    actions.push((name.clone(), resp));
                    proof {
                        assert(actions@.drop_last() =~= prior);
                        assert(fp_views(actions@) == fp_views(prior).push(
                            (actions@.last().0@, sr(actions@.last().1)),
                        ));
                    }
                },
                None => {},
            }
            i += 1;
        }
        proof {
            assert(programs@.take(programs@.len() as int) =~= programs@);
        }
        FastPathRegistry { actions }
    }

    /// The static response registered for an action, if any.
    #[verifier::loop_isolation(false)]
    pub fn get(&self, action_name: &str) -> (r: Option<&StaticResponse>)
        ensures
            match r {
                Some(resp) => self.spec_get(action_name@) == Some(sr(*resp)),
                None => self.spec_get(action_name@) is None,
            },
    {
        broadcast use lemma_fp_views_len, lemma_fp_views_index;

        let ghost fps = self.contents();
        proof {
            assert(fps.skip(0) =~= fps);
        }
        let mut i: usize = 0;
        while i < self.actions.len()
            invariant
                0 <= i <= self.actions@.len(),
                fps == fp_views(self.actions@),
                spec_fp_get(fps, action_name@) == spec_fp_get(fps.skip(i as int), action_name@),
            decreases self.actions.len() - i,
        {
            proof {
                assert(fps.skip(i as int)[0] == fps[i as int]);
                assert(fps.skip(i as int).skip(1) =~= fps.skip(i + 1));
            }
            if str_eq(self.actions[i].0.as_str(), action_name) {
                proof {
                    assert(spec_fp_get(fps.skip(i as int), action_name@) == Some(fps[i as int].1));
                }
                return Some(&self.actions[i].1);
            }
            i += 1;
        }
        proof {
            assert(fps.skip(fps.len() as int) =~= Seq::<(Seq<char>, SrVal)>::empty());
        }
        None
    }

    /// The fast path registered under a name, as a lookup over the model.
    pub open spec fn spec_get(&self, name: Seq<char>) -> Option<SrVal> {
        spec_fp_get(self.contents(), name)
    }

    /// The number of registered fast-path actions.
    pub fn len(&self) -> (r: usize)
        ensures
            r == self.contents().len(),
    {
        proof {
            lemma_fp_views_len(self.actions@);
        }
        self.actions.len()
    }
}

/// A pre-computed response for a static reply route. The body is carried as
/// text; the transport encodes it as UTF-8 bytes.
pub struct PrecomputedRoute {
    pub body: String,
    pub content_type: ContentType,
}

impl PrecomputedRoute {
    /// The precomputed response of a `json` route: the payload serialized
    /// once, served as `application/json`.
    pub fn from_json(val: &JsonValue) -> (r: PrecomputedRoute)
        ensures
            r.body@ == spec_json(jv(*val)),
            r.content_type == ContentType::Json,
    {
        PrecomputedRoute { body: to_json_string(val), content_type: ContentType::Json }
    }

    /// The precomputed response of a `text` route: the literal text, served
    /// as `text/plain; charset=utf-8`.
    pub fn from_text(text: &str) -> (r: PrecomputedRoute)
        ensures
            r.body@ == text@,
            r.content_type == ContentType::TextPlainUtf8,
    {
        PrecomputedRoute { body: String::from_str(text), content_type: ContentType::TextPlainUtf8 }
    }
}

/// Whether an extra header name is reserved and must not be overridden:
/// `content-type` and `server`, compared without regard to ASCII case.
pub fn header_is_reserved(name: &str) -> (r: bool)
    ensures
        r == (crate::strutil::spec_ascii_lower(name@) == "content-type"@ || crate::strutil::spec_ascii_lower(name@) == "server"@),
{
    let lowered = crate::strutil::ascii_lower(name);
    let ct = chars_vec("content-type");
    let sv = chars_vec("server");
    crate::strutil::eq_chars(&lowered, &ct) || crate::strutil::eq_chars(&lowered, &sv)
}

} // verus!
