//! The request dispatcher: choosing between precomputed, fast-path and
//! worker-dispatched execution, and assembling the final response.
//!
//! The transport hands in the decoded method and path; the dispatcher
//! decides from the immutable route tables. When a worker ran, its result
//! is assembled into status, headers and body here.

use vstd::prelude::*;

use crate::json::{
    JsonValue, JsonVal, jv, jv_obj_get, spec_json, to_json_string, obj_get, lemma_jv_members_len,
    lemma_jv_members_index,
};
use crate::fast_path::{
    StaticResponse, SrVal, sr, PrecomputedRoute, FastPathRegistry, ContentType, spec_header_pairs,
    header_views, lemma_header_views_len, lemma_header_views_index,
};
use crate::routes::{RouteVal, DynamicRoute, match_dynamic_route, spec_match_dynamic, pair_views};
use crate::strutil::{chars_vec, string_from_chars, eq_chars, str_eq, spec_u64_digits, push_u64_digits};
use crate::strsplit::{spec_split, spec_find, split_chars, lemma_find, copy_range, views_of};

verus! {

/// The strict lookup key of a request: `METHOD:PATH`.
pub open spec fn spec_strict_key(m: Seq<char>, p: Seq<char>) -> Seq<char> {
    m + seq![':'] + p
}

/// Build the strict lookup key `METHOD:PATH`.
pub fn strict_key(method: &str, path: &str) -> (r: String)
    ensures
        r@ == spec_strict_key(method@, path@),
{
    let mut out = String::from_str(method);
    out.append(":");
    out.append(path);
    proof {
        reveal_strlit(":");
        assert(out@ =~= spec_strict_key(method@, path@));
    }
    out
}

/// The first route bound to `key` in the table.
pub open spec fn spec_assoc_route(rs: Seq<(String, RouteVal)>, key: Seq<char>) -> Option<RouteVal>
    decreases rs.len(),
{
    if rs.len() == 0 {
        None
    } else if rs[0].0@ == key {
        Some(rs[0].1)
    } else {
        spec_assoc_route(rs.skip(1), key)
    }
}

/// The first precomputed response bound to `key`.
pub open spec fn spec_assoc_pre(rs: Seq<(String, PrecomputedRoute)>, key: Seq<char>) -> Option<
    PrecomputedRoute,
>
    decreases rs.len(),
{
    if rs.len() == 0 {
        None
    } else if rs[0].0@ == key {
        Some(rs[0].1)
    } else {
        spec_assoc_pre(rs.skip(1), key)
    }
}

/// Exact route lookup: the strict `METHOD:PATH` key first, then the bare
/// path.
pub open spec fn spec_lookup_exact(
    routes: Seq<(String, RouteVal)>,
    m: Seq<char>,
    p: Seq<char>,
) -> Option<RouteVal> {
    match spec_assoc_route(routes, spec_strict_key(m, p)) {
        Some(r) => Some(r),
        None => spec_assoc_route(routes, p),
    }
}

/// Look up the first route bound to `key`.
#[verifier::loop_isolation(false)]
fn assoc_route<'a>(routes: &'a Vec<(String, RouteVal)>, key: &str) -> (r: Option<&'a RouteVal>)
    ensures
        match r {
            Some(x) => spec_assoc_route(routes@, key@) == Some(*x),
            None => spec_assoc_route(routes@, key@) is None,
        },
{
    let kc = chars_vec(key);
    proof {
        assert(routes@.skip(0) =~= routes@);
    }
    let mut i: usize = 0;
    while i < routes.len()
        invariant
            0 <= i <= routes@.len(),
            kc@ == key@,
            spec_assoc_route(routes@, key@) == spec_assoc_route(routes@.skip(i as int), key@),
        decreases routes.len() - i,
    {
        proof {
            assert(routes@.skip(i as int)[0] == routes@[i as int]);
            assert(routes@.skip(i as int).skip(1) =~= routes@.skip(i + 1));
        }
        let pc = chars_vec(routes[i].0.as_str());
        if eq_chars(&pc, &kc) {
            return Some(&routes[i].1);
        }
        i += 1;
    }
    proof {
        assert(routes@.skip(routes@.len() as int) =~= Seq::<(String, RouteVal)>::empty());
    }
    None
}

/// Look up the first precomputed response bound to `key`.
#[verifier::loop_isolation(false)]
fn assoc_pre<'a>(pre: &'a Vec<(String, PrecomputedRoute)>, key: &str) -> (r: Option<
    &'a PrecomputedRoute,
>)
    ensures
        match r {
            Some(x) => spec_assoc_pre(pre@, key@) == Some(*x),
            None => spec_assoc_pre(pre@, key@) is None,
        },
{
    let kc = chars_vec(key);
    proof {
        assert(pre@.skip(0) =~= pre@);
    }
    let mut i: usize = 0;
    while i < pre.len()
        invariant
            0 <= i <= pre@.len(),
            kc@ == key@,
            spec_assoc_pre(pre@, key@) == spec_assoc_pre(pre@.skip(i as int), key@),
        decreases pre.len() - i,
    {
        proof {
            assert(pre@.skip(i as int)[0] == pre@[i as int]);
            assert(pre@.skip(i as int).skip(1) =~= pre@.skip(i + 1));
        }
        let pc = chars_vec(pre[i].0.as_str());
        if eq_chars(&pc, &kc) {
            return Some(&pre[i].1);
        }
        i += 1;
    }
    proof {
        assert(pre@.skip(pre@.len() as int) =~= Seq::<(String, PrecomputedRoute)>::empty());
    }
    None
}

/// What the early, scripting-free path serves.
pub ghost enum EarlyVal {
    /// A precomputed reply route: body text and content type.
    Reply(Seq<char>, ContentType),
    /// A registered static action response.
    FastPath(SrVal),
    /// A `json` route with no precomputed entry: the payload serialized.
    JsonBody(JsonVal),
    /// A literal string reply.
    Literal(Seq<char>),
}

/// What the early dispatch decides, before any body or header parsing: a
/// precomputed reply, a registered static action response, a serialized
/// `json` payload, a literal reply, or nothing (the request goes on to a
/// worker).
pub open spec fn spec_dispatch_early(
    routes: Seq<(String, RouteVal)>,
    pre: Seq<(String, PrecomputedRoute)>,
    fp: FastPathRegistry,
    m: Seq<char>,
    p: Seq<char>,
) -> Option<EarlyVal> {
    let key = spec_strict_key(m, p);
    match spec_lookup_exact(routes, m, p) {
        None => None,
        Some(rv) => {
            if rv.route_type@ == "json"@ || rv.route_type@ == "text"@ {
                let pc = match spec_assoc_pre(pre, key) {
                    Some(pc) => Some(pc),
                    None => spec_assoc_pre(pre, p),
                };
                match pc {
                    Some(pc) => Some(EarlyVal::Reply(pc.body@, pc.content_type)),
                    None => if rv.route_type@ == "json"@ {
                        Some(EarlyVal::JsonBody(jv(rv.value)))
                    } else {
                        match jv(rv.value) {
                            JsonVal::Str(s) => Some(EarlyVal::Literal(s)),
                            _ => None,
                        }
                    },
                }
            } else if rv.route_type@ == "action"@ {
                let name = match jv(rv.value) {
                    JsonVal::Str(s) => s,
                    _ => Seq::empty(),
                };
                match fp.spec_get(name) {
                    Some(r) => Some(EarlyVal::FastPath(r)),
                    None => None,
                }
            } else {
                match jv(rv.value) {
                    JsonVal::Str(s) => Some(EarlyVal::Literal(s)),
                    _ => None,
                }
            }
        },
    }
}

/// What the early, scripting-free path serves.
pub enum EarlyResponse<'a> {
    Reply(&'a PrecomputedRoute),
    FastPath(&'a StaticResponse),
    JsonBody(String),
    Literal(String),
}

/// The early dispatch: serve a precomputed reply route, a registered static
/// action response, or a literal, without touching the scripting engine;
/// `None` sends the request on to a worker.
pub fn dispatch_early<'a>(
    routes: &'a Vec<(String, RouteVal)>,
    pre: &'a Vec<(String, PrecomputedRoute)>,
    fast_paths: &'a FastPathRegistry,
    method: &str,
    path: &str,
) -> (r: Option<EarlyResponse<'a>>)
    ensures
        match r {
            Some(EarlyResponse::Reply(pc)) => spec_dispatch_early(
                routes@,
                pre@,
                *fast_paths,
                method@,
                path@,
            ) == Some(EarlyVal::Reply(pc.body@, pc.content_type)),
            Some(EarlyResponse::FastPath(resp)) => spec_dispatch_early(
                routes@,
                pre@,
                *fast_paths,
                method@,
                path@,
            ) == Some(EarlyVal::FastPath(sr(*resp))),
            Some(EarlyResponse::JsonBody(body)) => exists|v: JsonVal|
                spec_dispatch_early(routes@, pre@, *fast_paths, method@, path@) == Some(
                    EarlyVal::JsonBody(v),
                ) && body@ == spec_json(v),
            Some(EarlyResponse::Literal(s)) => spec_dispatch_early(
                routes@,
                pre@,
                *fast_paths,
                method@,
                path@,
            ) == Some(EarlyVal::Literal(s@)),
            None => spec_dispatch_early(routes@, pre@, *fast_paths, method@, path@) is None,
        },
{
    let key = strict_key(method, path);
    let rv = match assoc_route(routes, key.as_str()) {
        Some(rv) => rv,
        None => {
            match assoc_route(routes, path) {
                Some(rv) => rv,
                None => {
                    return None;
                },
            }
        },
    };
    if str_eq(rv.route_type.as_str(), "json") || str_eq(rv.route_type.as_str(), "text") {
        let pc = match assoc_pre(pre, key.as_str()) {
            Some(pc) => Some(pc),
            None => assoc_pre(pre, path),
        };
        match pc {
            Some(pc) => Some(EarlyResponse::Reply(pc)),
            None => {
                if str_eq(rv.route_type.as_str(), "json") {
                    Some(EarlyResponse::JsonBody(to_json_string(&rv.value)))
                } else {
                    match &rv.value {
                        JsonValue::Str(s) => Some(EarlyResponse::Literal(s.clone())),
                        _ => None,
                    }
                }
            },
        }
    } else if str_eq(rv.route_type.as_str(), "action") {
        let name: String = match &rv.value {
            JsonValue::Str(s) => s.clone(),
            _ => String::new(),
        };
        match fast_paths.get(name.as_str()) {
            Some(resp) => Some(EarlyResponse::FastPath(resp)),
            None => None,
        }
    } else {
        match &rv.value {
            JsonValue::Str(s) => Some(EarlyResponse::Literal(s.clone())),
            _ => None,
        }
    }
}

/// How a request resolves to an action: by an exact `action` route, or by
/// the first matching dynamic route with its bound parameters. `None` is a
/// 404: no static, dynamic or exact route matches.
pub open spec fn spec_resolve_action(
    routes: Seq<(String, RouteVal)>,
    dynamic: Seq<DynamicRoute>,
    m: Seq<char>,
    p: Seq<char>,
) -> Option<(Seq<char>, Seq<(Seq<char>, Seq<char>)>)> {
    let exact = match spec_lookup_exact(routes, m, p) {
        Some(rv) => if rv.route_type@ == "action"@ {
            match jv(rv.value) {
                JsonVal::Str(s) => Some(s),
                _ => Some("unknown"@),
            }
        } else {
            None
        },
        None => None,
    };
    match exact {
        Some(a) => Some((a, Seq::empty())),
        None => spec_match_dynamic(m, p, dynamic),
    }
}

/// Resolve the request to an action: an exact `action` route first (with no
/// parameters), then the first matching dynamic route.
pub fn resolve_action(
    routes: &Vec<(String, RouteVal)>,
    dynamic: &Vec<DynamicRoute>,
    method: &str,
    path: &str,
) -> (r: Option<(String, Vec<(String, String)>)>)
    ensures
        match (r, spec_resolve_action(routes@, dynamic@, method@, path@)) {
            (Some((a, ps)), Some(sm)) => a@ == sm.0 && pair_views(ps@) == sm.1,
            (None, None) => true,
            _ => false,
        },
{
    let key = strict_key(method, path);
    let exact = match assoc_route(routes, key.as_str()) {
        Some(rv) => Some(rv),
        None => assoc_route(routes, path),
    };
    match exact {
        Some(rv) => {
            if str_eq(rv.route_type.as_str(), "action") {
                let name: String = match &rv.value {
                    JsonValue::Str(s) => s.clone(),
                    _ => String::from_str("unknown"),
                };
                proof {
                    assert(pair_views(Seq::<(String, String)>::empty()) =~= Seq::<
                        (Seq<char>, Seq<char>),
                    >::empty());
                }
                return Some((name, Vec::new()));
            }
            match_dynamic_route(method, path, dynamic)
        },
        None => match_dynamic_route(method, path, dynamic),
    }
}

/// A request resolving to an action with a registered static response is
/// served that response: the early dispatch returns exactly its bytes and
/// content type, whatever the request's other parts.
pub proof fn lemma_fast_path_serves_registered_response(
    routes: Seq<(String, RouteVal)>,
    pre: Seq<(String, PrecomputedRoute)>,
    fp: FastPathRegistry,
    m: Seq<char>,
    p: Seq<char>,
    name: Seq<char>,
    resp: SrVal,
)
    requires
        spec_lookup_exact(routes, m, p) matches Some(rv) && rv.route_type@ == "action"@ && jv(
            rv.value,
        ) == JsonVal::Str(name),
        fp.spec_get(name) == Some(resp),
    ensures
        spec_dispatch_early(routes, pre, fp, m, p) == Some(EarlyVal::FastPath(resp)),
        spec_dispatch_early(routes, pre, fp, m, p) matches Some(EarlyVal::FastPath(r)) && r.body
            == resp.body && r.content_type == resp.content_type,
{
    reveal_strlit("action");
    reveal_strlit("json");
    reveal_strlit("text");
    assert("action"@ != "json"@) by {
        assert("action"@.len() != "json"@.len());
    }
    assert("action"@ != "text"@) by {
        assert("action"@.len() != "text"@.len());
    }
}

/// Serving is idempotent: any two early responses served for the same
/// method and path against the same immutable tables are one and the same,
/// so repeating a request served on the fast path returns byte-identical
/// bytes. Each response equals what the dispatch decides, which is a
/// function of the request and the tables alone.
pub proof fn lemma_early_dispatch_idempotent(
    routes: Seq<(String, RouteVal)>,
    pre: Seq<(String, PrecomputedRoute)>,
    fp: FastPathRegistry,
    m: Seq<char>,
    p: Seq<char>,
    first: Option<EarlyVal>,
    second: Option<EarlyVal>,
)
    requires
        first == spec_dispatch_early(routes, pre, fp, m, p),
        second == spec_dispatch_early(routes, pre, fp, m, p),
    ensures
        first == second,
{
}


/// An assembled HTTP response: status, headers, body, and whether the body
/// is JSON (so the transport labels it `application/json`).
pub struct HttpResponse {
    pub status: u16,
    pub json_body: bool,
    pub headers: Vec<(String, String)>,
    pub body: String,
}

/// The model of an assembled response.
pub ghost struct HttpVal {
    pub status: int,
    pub json_body: bool,
    pub headers: Seq<(Seq<char>, Seq<char>)>,
    pub body: Seq<char>,
}

/// The model of a response value.
pub open spec fn hv(r: HttpResponse) -> HttpVal {
    HttpVal {
        status: r.status as int,
        json_body: r.json_body,
        headers: header_views(r.headers@),
        body: r.body@,
    }
}

/// The status a worker result selects: its `status` member as the transport
/// reads it, falling back to 200 when absent, negative, or out of range.
pub open spec fn spec_result_status(m: JsonVal) -> int {
    match jv_obj_get(m, "status"@) {
        Some(JsonVal::Int(n)) => if n >= 0 {
            let t = n % 0x10000;
            if 100 <= t < 1000 {
                t
            } else {
                200
            }
        } else {
            200
        },
        _ => 200,
    }
}

/// How a worker result becomes an HTTP response: a top-level `error` is a
/// 500 carrying the whole result as JSON; a result flagged `_isResponse`
/// supplies status, headers and body itself, with a top-level `redirect`
/// coercing the status to 302 unless already 3xx and adding `Location`;
/// anything else is served as 200 with the result serialized as JSON.
pub open spec fn spec_assemble(m: JsonVal) -> HttpVal {
    if jv_obj_get(m, "error"@) is Some {
        HttpVal { status: 500, json_body: true, headers: Seq::empty(), body: spec_json(m) }
    } else if jv_obj_get(m, "_isResponse"@) == Some(JsonVal::Bool(true)) {
        let status0 = spec_result_status(m);
        let headers = match jv_obj_get(m, "headers"@) {
            Some(JsonVal::Obj(hs)) => spec_header_pairs(hs),
            _ => Seq::empty(),
        };
        match jv_obj_get(m, "redirect"@) {
            Some(JsonVal::Str(url)) => {
                let status = if 300 <= status0 < 400 {
                    status0
                } else {
                    302
                };
                HttpVal {
                    status,
                    json_body: false,
                    headers: headers.push(("Location"@, url)),
                    body: Seq::empty(),
                }
            },
            _ => {
                let body = match jv_obj_get(m, "body"@) {
                    Some(JsonVal::Str(s)) => s,
                    Some(v) => spec_json(v),
                    None => Seq::empty(),
                };
                HttpVal { status: status0, json_body: false, headers, body }
            },
        }
    } else {
        HttpVal { status: 200, json_body: true, headers: Seq::empty(), body: spec_json(m) }
    }
}

/// Assemble a worker result into an HTTP response.
#[verifier::loop_isolation(false)]
pub fn assemble_worker_response(result: &JsonValue) -> (r: HttpResponse)
    ensures
        hv(r) == spec_assemble(jv(*result)),
{
    broadcast use lemma_jv_members_len, lemma_jv_members_index, lemma_header_views_len, lemma_header_views_index;

    if obj_get(result, "error").is_some() {
        let body = to_json_string(result);
        let r = HttpResponse { status: 500, json_body: true, headers: Vec::new(), body };
        proof {
            assert(header_views(r.headers@) =~= Seq::<(Seq<char>, Seq<char>)>::empty());
        }
        return r;
    }
    let is_response = match obj_get(result, "_isResponse") {
        Some(JsonValue::Bool(b)) => *b,
        _ => false,
    };
    if !is_response {
        let body = to_json_string(result);
        let r = HttpResponse { status: 200, json_body: true, headers: Vec::new(), body };
        proof {
            assert(header_views(r.headers@) =~= Seq::<(Seq<char>, Seq<char>)>::empty());
        }
        return r;
    }
    let status0: u16 = match obj_get(result, "status") {
        Some(JsonValue::Int(n)) => {
            if *n >= 0 {
                let t = (*n % 0x10000) as u16;
                if 100 <= t && t < 1000 {
                    t
                } else {
                    200
                }
            } else {
                200
            }
        },
        _ => 200,
    };
    let mut headers: Vec<(String, String)> = Vec::new();
    proof {
        assert(header_views(headers@) =~= Seq::<(Seq<char>, Seq<char>)>::empty());
    }
    let ghost spec_headers = match jv_obj_get(jv(*result), "headers"@) {
        Some(JsonVal::Obj(hs)) => spec_header_pairs(hs),
        _ => Seq::<(Seq<char>, Seq<char>)>::empty(),
    };
    match obj_get(result, "headers") {
        Some(hval) => {
            match hval {
                JsonValue::Obj(hs) => {
                    let ghost model = crate::json::jv_members(hs@);
                    let mut i: usize = 0;
                    proof {
                        assert(model.take(0) =~= Seq::<(Seq<char>, JsonVal)>::empty());
                    }
                    while i < hs.len()
                        invariant
                            0 <= i <= hs@.len(),
                            model == crate::json::jv_members(hs@),
                            header_views(headers@) == spec_header_pairs(model.take(i as int)),
                        decreases hs.len() - i,
                    {
                        proof {
                            assert(model.take(i + 1).drop_last() =~= model.take(i as int));
                            assert(model.take(i + 1).last() == model[i as int]);
                        }
                        match &hs[i].1 {
                            JsonValue::Str(s) => {
                                let ghost prior = headers@;
                                headers.push((hs[i].0.clone(), s.clone()));
                                proof {
                                    assert(headers@.drop_last() =~= prior);
                                    assert(header_views(headers@) =~= spec_header_pairs(
                                        model.take(i + 1),
                                    ));
                                }
                            },
                            _ => {
                                proof {
                                    assert(header_views(headers@) =~= spec_header_pairs(
                                        model.take(i + 1),
                                    ));
                                }
                            },
                        }
                        i += 1;
                    }
                    proof {
                        assert(model.take(hs@.len() as int) =~= model);
                    }
                },
                _ => {},
            }
        },
        None => {},
    }
    proof {
        assert(header_views(headers@) == spec_headers);
    }
    let redirect_url: Option<String> = match obj_get(result, "redirect") {
        Some(JsonValue::Str(url)) => Some(url.clone()),
        _ => None,
    };
    match redirect_url {
        Some(url) => {
            let status: u16 = if 300 <= status0 && status0 < 400 {
                status0
            } else {
                302
            };
            let ghost prior = headers@;
            headers.push((String::from_str("Location"), url));
            proof {
                assert(headers@.drop_last() =~= prior);
                reveal_strlit("Location");
                assert(header_views(headers@) =~= header_views(prior).push(
                    ("Location"@, headers@.last().1@),
                ));
            }
            HttpResponse { status, json_body: false, headers, body: String::new() }
        },
        None => {
            let body: String = match obj_get(result, "body") {
                Some(bv) => match bv {
                    JsonValue::Str(s) => s.clone(),
                    _ => to_json_string(bv),
                },
                None => String::new(),
            };
            HttpResponse { status: status0, json_body: false, headers, body }
        },
    }
}

/// The decoded pairs of one query string: segments split on `&`, each cut
/// at its first `=` (an absent `=` leaves the value empty).
pub open spec fn spec_query_pair(seg: Seq<char>) -> (Seq<char>, Seq<char>) {
    let k = spec_find(seg, '=');
    if k < seg.len() {
        (seg.take(k), seg.skip(k + 1))
    } else {
        (seg, Seq::empty())
    }
}

/// The pairs of a sequence of query segments.
pub open spec fn spec_query_of_segs(segs: Seq<Seq<char>>) -> Seq<(Seq<char>, Seq<char>)>
    decreases segs,
{
    if segs.len() == 0 {
        Seq::empty()
    } else {
        spec_query_of_segs(segs.drop_last()).push(spec_query_pair(segs.last()))
    }
}

/// The decoded pairs of a query string.
pub open spec fn spec_query_pairs(q: Seq<char>) -> Seq<(Seq<char>, Seq<char>)> {
    spec_query_of_segs(spec_split(q, '&'))
}

/// Decode a query string into its key/value pairs, in order.
#[verifier::loop_isolation(false)]
pub fn parse_query(q: &str) -> (r: Vec<(String, String)>)
    ensures
        pair_views(r@) == spec_query_pairs(q@),
{
    let qc = chars_vec(q);
    let segs = split_chars(&qc, '&');
    let ghost seg_views = views_of(segs@);
    let mut out: Vec<(String, String)> = Vec::new();
    let mut i: usize = 0;
    proof {
        assert(seg_views.take(0) =~= Seq::<Seq<char>>::empty());
        assert(pair_views(out@) =~= Seq::<(Seq<char>, Seq<char>)>::empty());
    }
    while i < segs.len()
        invariant
            0 <= i <= segs@.len(),
            seg_views == views_of(segs@),
            seg_views.len() == segs@.len(),
            forall|j: int| 0 <= j < segs@.len() ==> (#[trigger] segs@[j])@ == seg_views[j],
            pair_views(out@) == spec_query_of_segs(seg_views.take(i as int)),
        decreases segs.len() - i,
    {
        proof {
            assert(seg_views.take(i + 1).drop_last() =~= seg_views.take(i as int));
            assert(seg_views.take(i + 1).last() == seg_views[i as int]);
        }
        let seg = &segs[i];
        let mut k: usize = 0;
        proof {
            lemma_find(seg@, '=');
        }
        while k < seg.len() && seg[k] != '='
            invariant
                0 <= k <= seg@.len(),
                forall|j: int| 0 <= j < k ==> seg@[j] != '=',
            decreases seg.len() - k,
        {
            k += 1;
        }
        proof {
            if k < seg@.len() {
                assert(spec_find(seg@, '=') == k as int) by {
                    if spec_find(seg@, '=') < k as int {
                        assert(seg@[spec_find(seg@, '=')] == '=');
                    }
                }
            } else {
                assert(spec_find(seg@, '=') == seg@.len()) by {
                    if spec_find(seg@, '=') < seg@.len() {
                        assert(seg@[spec_find(seg@, '=')] == '=');
                    }
                }
            }
        }
        let key = copy_range(seg, 0, k);
        let val: Vec<char> = if k < seg.len() {
            copy_range(seg, k + 1, seg.len())
        } else {
            Vec::new()
        };
        proof {
            assert(key@ =~= seg@.take(k as int));
            if k < seg@.len() {
                assert(val@ =~= seg@.skip(k + 1));
            } else {
                assert(key@ =~= seg@);
            }
        }
        let ghost prior = out@;
        out.push((string_from_chars(&key), string_from_chars(&val)));
        proof {
            assert(out@.drop_last() =~= prior);
            assert(pair_views(out@) =~= spec_query_of_segs(seg_views.take(i + 1)));
        }
        i += 1;
    }
    proof {
        assert(seg_views.take(seg_views.len() as int) =~= seg_views);
    }
    out
}

/// One Server-Timing entry: `LABEL_IDX;dur=MS`, the duration in
/// milliseconds with two digits after the point.
pub open spec fn spec_timing_entry(label: Seq<char>, idx: int, us: int) -> Seq<char> {
    label + seq!['_'] + spec_u64_digits(idx as nat) + ";dur="@ + spec_u64_digits(
        (us / 1000) as nat,
    ) + seq!['.'] + seq![
        crate::strutil::digit_char((us % 1000) / 100),
        crate::strutil::digit_char(((us % 1000) / 10) % 10),
    ]
}

/// The Server-Timing entries of a timing list, comma separated.
pub open spec fn spec_server_timing(ts: Seq<(String, u64)>) -> Seq<char>
    decreases ts,
{
    if ts.len() == 0 {
        Seq::empty()
    } else if ts.len() == 1 {
        spec_timing_entry(ts.last().0@, ts.len() - 1, ts.last().1 as int)
    } else {
        spec_server_timing(ts.drop_last()) + ", "@ + spec_timing_entry(
            ts.last().0@,
            ts.len() - 1,
            ts.last().1 as int,
        )
    }
}

/// The Server-Timing header value summarizing a request's drift timings:
/// each entry labelled and indexed, its duration in milliseconds with two
/// digits after the point.
#[verifier::loop_isolation(false)]
pub fn server_timing_value(timings: &Vec<(String, u64)>) -> (r: String)
    ensures
        r@ == spec_server_timing(timings@),
{
    let mut out: Vec<char> = Vec::new();
    let mut i: usize = 0;
    while i < timings.len()
        invariant
            0 <= i <= timings@.len(),
            out@ == spec_server_timing(timings@.take(i as int)),
        decreases timings.len() - i,
    {
        proof {
            assert(timings@.take(i + 1).drop_last() =~= timings@.take(i as int));
            assert(timings@.take(i + 1).last() == timings@[i as int]);
        }
        if i > 0 {
            out.push(',');
            out.push(' ');
            proof {
                reveal_strlit(", ");
                assert(out@ =~= spec_server_timing(timings@.take(i as int)) + ", "@);
            }
        }
        let (label, us) = &timings[i];
        let lc = chars_vec(label.as_str());
        let mut j: usize = 0;
        let ghost mid = out@;
        while j < lc.len()
            invariant
                0 <= j <= lc@.len(),
                lc@ == label@,
                out@ == mid + label@.take(j as int),
            decreases lc.len() - j,
        {
            out.push(lc[j]);
            proof {
                assert(label@.take(j + 1) =~= label@.take(j as int).push(label@[j as int]));
            }
            j += 1;
        }
        proof {
            assert(label@.take(label@.len() as int) =~= label@);
        }
        out.push('_');
        push_u64_digits(i as u64, &mut out);
        out.push(';');
        out.push('d');
        out.push('u');
        out.push('r');
        out.push('=');
        push_u64_digits(*us / 1000, &mut out);
        out.push('.');
        let hundreds = ((*us % 1000) / 100) as u64;
        let tens = (((*us % 1000) / 10) % 10) as u64;
        let c1 = crate::strutil::digit_to_char_pub(hundreds);
        out.push(c1);
        let c2 = crate::strutil::digit_to_char_pub(tens);
        out.push(c2);
        proof {
            reveal_strlit(";dur=");
            assert(out@ =~= spec_server_timing(timings@.take(i + 1)));
        }
        i += 1;
    }
    proof {
        assert(timings@.take(timings@.len() as int) =~= timings@);
    }
    string_from_chars(&out)
}

} // verus!
