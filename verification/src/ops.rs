//! Asynchronous drift operations: descriptors, their decoding, and the
//! filesystem guard.
//!
//! Host functions such as `t.fetch` or `t.db.connect(...).query` do not
//! perform I/O; they build descriptor objects that the script-side core
//! passes to the suspension primitive. The worker decodes a descriptor into
//! a [`TitanAsyncOp`]; the executor performs it. The executor's work itself
//! (network, database, file reads) lives with the caller; everything decided
//! about a descriptor or a path is verified here.

use vstd::prelude::*;

use crate::json::{
    JsonValue, JsonVal, jv, jv_list, jv_members, jv_obj_get, spec_json, obj_get,
    lemma_jv_list_len, lemma_jv_list_index, lemma_jv_members_len, lemma_jv_members_index,
};
use crate::strutil::{chars_vec, i64_to_string};
use crate::strsplit::{spec_split, split_chars, views_of};

verus! {

/// One asynchronous operation.
pub enum TitanAsyncOp {
    Fetch { url: String, method: String, body: Option<String>, headers: Vec<(String, String)> },
    DbQuery { conn: String, query: String, params: Vec<String> },
    FsRead { path: String },
    Batch(Vec<TitanAsyncOp>),
}

/// The model of an asynchronous operation.
pub ghost enum OpVal {
    Fetch { url: Seq<char>, method: Seq<char>, body: Option<Seq<char>>, headers: Seq<(Seq<char>, Seq<char>)> },
    DbQuery { conn: Seq<char>, query: Seq<char>, params: Seq<Seq<char>> },
    FsRead { path: Seq<char> },
    Batch(Seq<OpVal>),
}

/// The model of an operation.
pub open spec fn ov(op: TitanAsyncOp) -> OpVal
    decreases op,
{
    match op {
        TitanAsyncOp::Fetch { url, method, body, headers } => OpVal::Fetch {
            url: url@,
            method: method@,
            body: match body {
                Some(b) => Some(b@),
                None => None,
            },
            headers: crate::fast_path::header_views(headers@),
        },
        TitanAsyncOp::DbQuery { conn, query, params } => OpVal::DbQuery {
            conn: conn@,
            query: query@,
            params: string_views(params@),
        },
        TitanAsyncOp::FsRead { path } => OpVal::FsRead { path: path@ },
        TitanAsyncOp::Batch(ops) => OpVal::Batch(ov_list(ops@)),
    }
}

/// The models of a sequence of operations.
pub open spec fn ov_list(ops: Seq<TitanAsyncOp>) -> Seq<OpVal>
    decreases ops,
{
    if ops.len() == 0 {
        Seq::empty()
    } else {
        ov_list(ops.drop_last()).push(ov(ops.last()))
    }
}

/// The views of a sequence of strings.
pub open spec fn string_views(ss: Seq<String>) -> Seq<Seq<char>>
    decreases ss,
{
    if ss.len() == 0 {
        Seq::empty()
    } else {
        string_views(ss.drop_last()).push(ss.last()@)
    }
}

pub broadcast proof fn lemma_string_views_len(ss: Seq<String>)
    ensures
        (#[trigger] string_views(ss)).len() == ss.len(),
    decreases ss.len(),
{
    if ss.len() > 0 {
        lemma_string_views_len(ss.drop_last());
    }
}

pub broadcast proof fn lemma_string_views_index(ss: Seq<String>, i: int)
    requires
        0 <= i < ss.len(),
    ensures
        #[trigger] string_views(ss)[i] == ss[i]@,
    decreases ss.len(),
{
    lemma_string_views_len(ss);
    if ss.len() > 0 {
        lemma_string_views_len(ss.drop_last());
        if i < ss.len() - 1 {
            lemma_string_views_index(ss.drop_last(), i);
        }
    }
}

/// How a value is coerced to text inside a descriptor: strings keep their
/// text; numbers, booleans and null take their script rendering; aggregates
/// are not coerced.
pub open spec fn spec_text_coerce(v: JsonVal) -> Option<Seq<char>> {
    crate::fast_path::spec_tpl_coerce(v)
}

/// The string members of a headers object, each value coerced to text;
/// members whose value is an aggregate are left out.
pub open spec fn spec_coerced_pairs(hs: Seq<(Seq<char>, JsonVal)>) -> Seq<(Seq<char>, Seq<char>)>
    decreases hs,
{
    if hs.len() == 0 {
        Seq::empty()
    } else {
        spec_coerced_pairs(hs.drop_last()) + (match spec_text_coerce(hs.last().1) {
            Some(t) => seq![(hs.last().0, t)],
            None => Seq::empty(),
        })
    }
}

/// The items of a params array, each coerced to text; aggregates are left
/// out.
pub open spec fn spec_coerced_items(vs: Seq<JsonVal>) -> Seq<Seq<char>>
    decreases vs,
{
    if vs.len() == 0 {
        Seq::empty()
    } else {
        spec_coerced_items(vs.drop_last()) + (match spec_text_coerce(vs.last()) {
            Some(t) => seq![t],
            None => Seq::empty(),
        })
    }
}

/// What decoding one descriptor yields: its `type` tag selects the
/// operation, and the fields of its `data` object fill it in. A malformed
/// descriptor decodes to nothing.
pub open spec fn spec_parse_async_op(m: JsonVal) -> Option<OpVal> {
    match jv_obj_get(m, "type"@) {
        Some(JsonVal::Str(ty)) => match jv_obj_get(m, "data"@) {
            Some(data) => if !(data matches JsonVal::Obj(_)) {
                None
            } else if ty == "fetch"@ {
                match jv_obj_get(data, "url"@) {
                    Some(JsonVal::Str(url)) => {
                        let opts = jv_obj_get(data, "opts"@);
                        let method = match opts {
                            Some(o) => match jv_obj_get(o, "method"@) {
                                Some(JsonVal::Str(mm)) => mm,
                                _ => "GET"@,
                            },
                            _ => "GET"@,
                        };
                        let body = match opts {
                            Some(o) => match jv_obj_get(o, "body"@) {
                                Some(JsonVal::Str(b)) => Some(b),
                                Some(JsonVal::Obj(ps)) => Some(spec_json(JsonVal::Obj(ps))),
                                Some(JsonVal::Arr(items)) => Some(spec_json(JsonVal::Arr(items))),
                                _ => None,
                            },
                            _ => None,
                        };
                        let headers = match opts {
                            Some(o) => match jv_obj_get(o, "headers"@) {
                                Some(JsonVal::Obj(hs)) => spec_coerced_pairs(hs),
                                _ => Seq::empty(),
                            },
                            _ => Seq::empty(),
                        };
                        Some(OpVal::Fetch { url, method, body, headers })
                    },
                    _ => None,
                }
            } else if ty == "db_query"@ {
                match (jv_obj_get(data, "conn"@), jv_obj_get(data, "query"@)) {
                    (Some(JsonVal::Str(conn)), Some(JsonVal::Str(query))) => {
                        let params = match jv_obj_get(data, "params"@) {
                            Some(JsonVal::Arr(items)) => spec_coerced_items(items),
                            _ => Seq::empty(),
                        };
                        Some(OpVal::DbQuery { conn, query, params })
                    },
                    _ => None,
                }
            } else if ty == "fs_read"@ {
                match jv_obj_get(data, "path"@) {
                    Some(JsonVal::Str(path)) => Some(OpVal::FsRead { path }),
                    _ => None,
                }
            } else {
                None
            },
            None => None,
        },
        _ => None,
    }
}

/// Coerce one value to descriptor text.
fn text_coerce(v: &JsonValue) -> (r: Option<String>)
    ensures
        match r {
            Some(s) => spec_text_coerce(jv(*v)) == Some(s@),
            None => spec_text_coerce(jv(*v)) is None,
        },
{
    match v {
        JsonValue::Str(s) => Some(s.clone()),
        JsonValue::Int(i) => Some(i64_to_string(*i)),
        JsonValue::Dec(t) => Some(t.clone()),
        JsonValue::Bool(b) => {
            if *b {
                let s = String::from_str("true");
                proof {
                    reveal_strlit("true");
                    assert(s@ =~= seq!['t', 'r', 'u', 'e']);
                }
                Some(s)
            } else {
                let s = String::from_str("false");
                proof {
                    reveal_strlit("false");
                    assert(s@ =~= seq!['f', 'a', 'l', 's', 'e']);
                }
                Some(s)
            }
        },
        JsonValue::Null => {
            let s = String::from_str("null");
            proof {
                reveal_strlit("null");
                assert(s@ =~= seq!['n', 'u', 'l', 'l']);
            }
            Some(s)
        },
        _ => None,
    }
}

/// Decode one drift descriptor into the operation it denotes.
#[verifier::loop_isolation(false)]
pub fn parse_async_op(m: &JsonValue) -> (r: Option<TitanAsyncOp>)
    ensures
        match r {
            Some(op) => spec_parse_async_op(jv(*m)) == Some(ov(op)),
            None => spec_parse_async_op(jv(*m)) is None,
        },
{
    broadcast use lemma_jv_members_len, lemma_jv_members_index, crate::fast_path::lemma_header_views_len, crate::fast_path::lemma_header_views_index, lemma_string_views_len, lemma_string_views_index, lemma_jv_list_len, lemma_jv_list_index;

    let ty = match obj_get(m, "type") {
        Some(JsonValue::Str(ty)) => ty,
        _ => {
            return None;
        },
    };
    let data = match obj_get(m, "data") {
        Some(data) => data,
        None => {
            return None;
        },
    };
    let data_is_obj = match data {
        JsonValue::Obj(_) => true,
        _ => false,
    };
    if !data_is_obj {
        return None;
    }
    if crate::strutil::str_eq(ty.as_str(), "fetch") {
        let url = match obj_get(data, "url") {
            Some(JsonValue::Str(url)) => url.clone(),
            _ => {
                return None;
            },
        };
        let opts = obj_get(data, "opts");
        let method: String = match &opts {
            Some(o) => match obj_get(o, "method") {
                Some(JsonValue::Str(mm)) => mm.clone(),
                _ => {
                    let g = String::from_str("GET");
                    proof {
                        reveal_strlit("GET");
                    }
                    g
                },
            },
            None => {
                let g = String::from_str("GET");
                proof {
                    reveal_strlit("GET");
                }
                g
            },
        };
        let body: Option<String> = match &opts {
            Some(o) => match obj_get(o, "body") {
                Some(bv) => match bv {
                    JsonValue::Str(b) => Some(b.clone()),
                    JsonValue::Obj(_) => Some(crate::json::to_json_string(bv)),
                    JsonValue::Arr(_) => Some(crate::json::to_json_string(bv)),
                    _ => None,
                },
                None => None,
            },
            None => None,
        };
        let mut headers: Vec<(String, String)> = Vec::new();
        proof {
            assert(crate::fast_path::header_views(headers@) =~= Seq::<
                (Seq<char>, Seq<char>),
            >::empty());
        }
        match &opts {
            Some(o) => {
                match obj_get(o, "headers") {
                    Some(hval) => {
                        match hval {
                            JsonValue::Obj(hs) => {
                                let ghost model = jv_members(hs@);
                                let mut i: usize = 0;
                                proof {
                                    assert(model.take(0) =~= Seq::<(Seq<char>, JsonVal)>::empty());
                                }
                                while i < hs.len()
                                    invariant
                                        0 <= i <= hs@.len(),
                                        model == jv_members(hs@),
                                        crate::fast_path::header_views(headers@)
                                            == spec_coerced_pairs(model.take(i as int)),
                                    decreases hs.len() - i,
                                {
                                    proof {
                                        assert(model.take(i + 1).drop_last() =~= model.take(
                                            i as int,
                                        ));
                                        assert(model.take(i + 1).last() == model[i as int]);
                                    }
                                    match text_coerce(&hs[i].1) {
                                        Some(t) => {
                                            let ghost prior = headers@;
                                            headers.push((hs[i].0.clone(), t));
                                            proof {
                                                assert(headers@.drop_last() =~= prior);
                                                assert(crate::fast_path::header_views(headers@)
                                                    =~= spec_coerced_pairs(model.take(i + 1)));
                                            }
                                        },
                                        None => {
                                            proof {
                                                assert(crate::fast_path::header_views(headers@)
                                                    =~= spec_coerced_pairs(model.take(i + 1)));
                                            }
                                        },
                                    }
                                    i += 1;
                                }
                                proof {
                                    assert(model.take(hs@.len() as int) =~= model);
                                }
                            },
                            _ => {},
                        }
                    },
                    None => {},
                }
            },
            None => {},
        }
        Some(TitanAsyncOp::Fetch { url, method, body, headers })
    } else if crate::strutil::str_eq(ty.as_str(), "db_query") {
        let conn = match obj_get(data, "conn") {
            Some(JsonValue::Str(conn)) => conn.clone(),
            _ => {
                return None;
            },
        };
        let query = match obj_get(data, "query") {
            Some(JsonValue::Str(query)) => query.clone(),
            _ => {
                return None;
            },
        };
        let mut params: Vec<String> = Vec::new();
        proof {
            assert(string_views(params@) =~= Seq::<Seq<char>>::empty());
        }
        match obj_get(data, "params") {
            Some(pv) => {
                match pv {
                    JsonValue::Arr(items) => {
                        let ghost model = jv_list(items@);
                        let mut i: usize = 0;
                        proof {
                            assert(model.take(0) =~= Seq::<JsonVal>::empty());
                        }
                        while i < items.len()
                            invariant
                                0 <= i <= items@.len(),
                                model == jv_list(items@),
                                string_views(params@) == spec_coerced_items(model.take(i as int)),
                            decreases items.len() - i,
                        {
                            proof {
                                assert(model.take(i + 1).drop_last() =~= model.take(i as int));
                                assert(model.take(i + 1).last() == model[i as int]);
                            }
                            match text_coerce(&items[i]) {
                                Some(t) => {
                                    let ghost prior = params@;
                                    params.push(t);
                                    proof {
                                        assert(params@.drop_last() =~= prior);
                                        assert(string_views(params@) =~= spec_coerced_items(
                                            model.take(i + 1),
                                        ));
                                    }
                                },
                                None => {
                                    proof {
                                        assert(string_views(params@) =~= spec_coerced_items(
                                            model.take(i + 1),
                                        ));
                                    }
                                },
                            }
                            i += 1;
                        }
                        proof {
                            assert(model.take(items@.len() as int) =~= model);
                        }
                    },
                    _ => {},
                }
            },
            None => {},
        }
        Some(TitanAsyncOp::DbQuery { conn, query, params })
    } else if crate::strutil::str_eq(ty.as_str(), "fs_read") {
        match obj_get(data, "path") {
            Some(JsonValue::Str(path)) => Some(TitanAsyncOp::FsRead { path: path.clone() }),
            _ => None,
        }
    } else {
        None
    }
}


/// What the suspension primitive receives: one descriptor, or an array of
/// descriptors that form a batch. A batch keeps its operations in
/// declaration order; elements that do not decode are left out.
pub open spec fn spec_parse_drift_arg(m: JsonVal) -> Option<OpVal> {
    match m {
        JsonVal::Arr(items) => Some(OpVal::Batch(spec_parsed_ops(items))),
        _ => spec_parse_async_op(m),
    }
}

/// The operations an array of descriptors decodes to, in order.
pub open spec fn spec_parsed_ops(items: Seq<JsonVal>) -> Seq<OpVal>
    decreases items,
{
    if items.len() == 0 {
        Seq::empty()
    } else {
        spec_parsed_ops(items.drop_last()) + (match spec_parse_async_op(items.last()) {
            Some(op) => seq![op],
            None => Seq::empty(),
        })
    }
}

/// Decode the argument of the suspension primitive: an array becomes a
/// batch of its decodable descriptors, in declaration order.
#[verifier::loop_isolation(false)]
pub fn parse_drift_arg(m: &JsonValue) -> (r: Option<TitanAsyncOp>)
    ensures
        match r {
            Some(op) => spec_parse_drift_arg(jv(*m)) == Some(ov(op)),
            None => spec_parse_drift_arg(jv(*m)) is None,
        },
{
    broadcast use lemma_jv_list_len, lemma_jv_list_index;

    match m {
        JsonValue::Arr(items) => {
            let ghost model = jv_list(items@);
            let mut ops: Vec<TitanAsyncOp> = Vec::new();
            let mut i: usize = 0;
            proof {
                assert(model.take(0) =~= Seq::<JsonVal>::empty());
                assert(ov_list(ops@) =~= Seq::<OpVal>::empty());
            }
            while i < items.len()
                invariant
                    0 <= i <= items@.len(),
                    model == jv_list(items@),
                    ov_list(ops@) == spec_parsed_ops(model.take(i as int)),
                decreases items.len() - i,
            {
                proof {
                    assert(model.take(i + 1).drop_last() =~= model.take(i as int));
                    assert(model.take(i + 1).last() == model[i as int]);
                }
                match parse_async_op(&items[i]) {
                    Some(op) => {
                        let ghost prior = ops@;
                        let ghost op_model = ov(op);
                        ops.push(op);
                        proof {
                            assert(ops@.drop_last() =~= prior);
                            assert(ov_list(ops@) =~= spec_parsed_ops(model.take(i + 1)));
                        }
                    },
                    None => {
                        proof {
                            assert(ov_list(ops@) =~= spec_parsed_ops(model.take(i + 1)));
                        }
                    },
                }
                i += 1;
            }
            proof {
                assert(model.take(items@.len() as int) =~= model);
            }
            Some(TitanAsyncOp::Batch(ops))
        },
        _ => parse_async_op(m),
    }
}

/// Whether one canonical path lies within another: the root's `/`-separated
/// components are a prefix of the target's.
pub open spec fn spec_path_within_root(root: Seq<char>, target: Seq<char>) -> bool {
    let rs = spec_split(root, '/');
    let ts = spec_split(target, '/');
    rs.len() <= ts.len() && rs =~= ts.take(rs.len() as int)
}

/// Decide whether a canonical target path lies within the canonical project
/// root, component by component.
#[verifier::loop_isolation(false)]
pub fn path_within_root(root: &str, target: &str) -> (r: bool)
    ensures
        r == spec_path_within_root(root@, target@),
{
    let rc = chars_vec(root);
    let tc = chars_vec(target);
    let rs = split_chars(&rc, '/');
    let ts = split_chars(&tc, '/');
    let ghost rsv = spec_split(root@, '/');
    let ghost tsv = spec_split(target@, '/');
    if rs.len() > ts.len() {
        return false;
    }
    let mut i: usize = 0;
    while i < rs.len()
        invariant
            0 <= i <= rs@.len(),
            rs@.len() == views_of(rs@).len(),
            ts@.len() == views_of(ts@).len(),
            views_of(rs@) == rsv,
            views_of(ts@) == tsv,
            rs@.len() <= ts@.len(),
            forall|j: int| 0 <= j < i ==> rsv[j] == tsv[j],
        decreases rs.len() - i,
    {
        proof {
            assert(views_of(rs@)[i as int] == (rs@[i as int])@);
            assert(views_of(ts@)[i as int] == (ts@[i as int])@);
        }
        if !crate::strutil::eq_chars(&rs[i], &ts[i]) {
            proof {
                assert(rsv[i as int] != tsv[i as int]);
                assert(!(rsv =~= tsv.take(rsv.len() as int)));
                assert(!spec_path_within_root(root@, target@));
            }
            return false;
        }
        i += 1;
    }
    proof {
        assert(rsv =~= tsv.take(rsv.len() as int));
    }
    true
}

/// The `Access denied` error value.
pub fn access_denied_result() -> (r: JsonValue)
    ensures
        jv_obj_get(jv(r), "error"@) == Some(JsonVal::Str("Access denied"@)),
{
    broadcast use lemma_jv_members_len, lemma_jv_members_index;

    let mut pairs: Vec<(String, JsonValue)> = Vec::new();
    pairs.push((String::from_str("error"), JsonValue::Str(String::from_str("Access denied"))));
    proof {
        assert(jv_members(pairs@)[0] == ("error"@, JsonVal::Str("Access denied"@)));
    }
    JsonValue::Obj(pairs)
}

/// What the filesystem read decides from the canonicalized paths.
pub enum FsReadStep {
    /// The target lies within the root: read it.
    Read,
    /// Denied: the target does not canonicalize into the root.
    DenyAccess,
}

/// Decide a filesystem read: the caller canonicalizes the joined path (or
/// reports that canonicalization failed with `None`); a read happens only
/// for a target canonically within the project root.
pub fn fs_read_step(root_canonical: &str, target_canonical: Option<&str>) -> (r: FsReadStep)
    ensures
        r == FsReadStep::Read <==> (target_canonical matches Some(t) && spec_path_within_root(
            root_canonical@,
            t@,
        )),
{
    match target_canonical {
        Some(t) => {
            if path_within_root(root_canonical, t) {
                FsReadStep::Read
            } else {
                FsReadStep::DenyAccess
            }
        },
        None => FsReadStep::DenyAccess,
    }
}

/// A path whose canonical form does not descend from the project root is
/// denied: the read step never answers `Read` for it, so no filesystem read
/// is reached.
pub proof fn lemma_path_outside_root_is_denied(root: Seq<char>, target: Seq<char>, step: FsReadStep)
    requires
        !spec_path_within_root(root, target),
        step == FsReadStep::Read <==> spec_path_within_root(root, target),
    ensures
        step == FsReadStep::DenyAccess,
{
}

/// The maximum pool size a `connect` options value selects: its `max`
/// member when that is a non-negative integer, and 16 otherwise.
pub open spec fn spec_db_max_size(opts: JsonVal) -> int {
    match jv_obj_get(opts, "max"@) {
        Some(JsonVal::Int(n)) => if 0 <= n <= usize::MAX {
            n
        } else {
            16
        },
        _ => 16,
    }
}

/// The maximum pool size from `t.db.connect` options; 16 when absent.
pub fn db_connect_max_size(opts: &JsonValue) -> (r: usize)
    ensures
        r as int == spec_db_max_size(jv(*opts)),
{
    match obj_get(opts, "max") {
        Some(JsonValue::Int(n)) => {
            if 0 <= *n && (*n as u64) <= (usize::MAX as u64) {
                *n as usize
            } else {
                16
            }
        },
        _ => 16,
    }
}

} // verus!
