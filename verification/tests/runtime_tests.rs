//! Tests of the worker bookkeeping, the drift protocol, the dispatcher and
//! the engine support.

use titan::runtime::{TitanRuntime, DriftStep, worker_try_order};
use titan::json::{JsonValue, to_json_string};
use titan::dispatch::{
    dispatch_early, EarlyResponse, resolve_action, assemble_worker_response, parse_query,
    server_timing_value, strict_key,
};
use titan::routes::{RouteVal, DynamicRoute};
use titan::fast_path::{FastPathRegistry, PrecomputedRoute, ContentType};
use titan::ops::{
    TitanAsyncOp, parse_async_op, parse_drift_arg, path_within_root, fs_read_step, FsReadStep,
    access_denied_result, db_connect_max_size,
};
use titan::engine::{
    is_suspend_sentinel, suspend_sentinel_message, action_error_result, action_not_found_result,
    wrapped_action_source, normalize_finish_result, sign_token,
};
use titan::extensions::{
    parse_type, parse_return, ParamType, ReturnType, load_project_extensions, ManifestInput,
    NativeFuncDecl, ShareContextStore, native_wrapper_source,
};

fn obj(pairs: Vec<(&str, JsonValue)>) -> JsonValue {
    let mut out: Vec<(String, JsonValue)> = Vec::new();
    for (k, v) in pairs {
        out.push((k.to_string(), v));
    }
    JsonValue::Obj(out)
}

fn s(x: &str) -> JsonValue {
    JsonValue::Str(x.to_string())
}

/// A request that finishes without suspending leaves no bookkeeping.
#[test]
fn sync_request_leaves_no_state() {
    let mut rt = TitanRuntime::new_worker(0);
    let rid = rt.begin_request();
    assert_eq!(rid, 1);
    let out = rt.finish_request(rid, obj(vec![("ok", JsonValue::Bool(true))]));
    let result = out.expect("a pending request must yield a result");
    assert!(result.timings.is_empty());
    assert_eq!(to_json_string(&result.json), "{\"ok\":true}");
    rt.after_execution(
        rid,
        titan::runtime::RequestData {
            action_name: "a".to_string(),
            body: None,
            method: "GET".to_string(),
            path: "/".to_string(),
            headers: vec![],
            params: vec![],
            query: vec![],
        },
    );
    assert!(rt.pending_requests.is_empty());
    assert!(rt.active_requests.is_empty());
    assert!(rt.request_start_counters.is_empty());
}

fn dummy_data() -> titan::runtime::RequestData {
    titan::runtime::RequestData {
        action_name: "fetcher".to_string(),
        body: None,
        method: "GET".to_string(),
        path: "/f".to_string(),
        headers: vec![],
        params: vec![],
        query: vec![],
    }
}

/// One drift: suspend, resume with the result, replay from cache, finish.
#[test]
fn drift_round_trip() {
    let mut rt = TitanRuntime::new_worker(0);
    let rid = rt.begin_request();
    // First execution reaches the fetch and suspends.
    let step = rt.drift_call(rid);
    let drift_id = match step {
        DriftStep::Suspend(id) => id,
        DriftStep::Replay(_) => panic!("first drift must suspend"),
    };
    assert_eq!(drift_id, 1);
    rt.after_execution(rid, dummy_data());
    assert!(rt.pending_requests.contains_key(&rid));
    assert!(rt.active_requests.contains_key(&rid));
    // The executor completes; the resume arrives.
    let fetched = obj(vec![("s", JsonValue::Int(200))]);
    let (req, replay) = rt.apply_resume(drift_id, fetched, 1234);
    assert_eq!(req, rid);
    assert!(replay);
    // The replay re-allocates the same drift id and hits the cache.
    let step2 = rt.drift_call(rid);
    match step2 {
        DriftStep::Replay(text) => assert_eq!(text, "{\"s\":200}"),
        DriftStep::Suspend(_) => panic!("replay must hit the cache"),
    }
    let out = rt.finish_request(rid, obj(vec![("s", JsonValue::Int(200))])).unwrap();
    assert_eq!(out.timings.len(), 1);
    assert_eq!(out.timings[0].0, "drift");
    assert_eq!(out.timings[0].1, 1234);
    rt.resume_cleanup(rid);
    assert!(rt.pending_requests.is_empty());
    assert!(rt.active_requests.is_empty());
    assert!(rt.request_start_counters.is_empty());
}

/// Two sequential drifts: two suspensions, both replayed in order.
#[test]
fn two_drifts_replay_in_order() {
    let mut rt = TitanRuntime::new_worker(0);
    let rid = rt.begin_request();
    let mut suspensions = 0;
    // Run 1: drift A suspends.
    let a = match rt.drift_call(rid) {
        DriftStep::Suspend(id) => {
            suspensions += 1;
            id
        },
        _ => panic!(),
    };
    rt.after_execution(rid, dummy_data());
    let (_, replay) = rt.apply_resume(a, s("A-body"), 10);
    assert!(replay);
    // Run 2: drift A replays from cache, drift B suspends.
    match rt.drift_call(rid) {
        DriftStep::Replay(text) => assert_eq!(text, "\"A-body\""),
        _ => panic!("A must replay"),
    }
    let b = match rt.drift_call(rid) {
        DriftStep::Suspend(id) => {
            suspensions += 1;
            id
        },
        _ => panic!("B must suspend"),
    };
    assert_eq!((a, b), (1, 2));
    let (_, replay2) = rt.apply_resume(b, s("B-body"), 20);
    assert!(replay2);
    // Run 3: both replay; the drift ids repeat exactly.
    match rt.drift_call(rid) {
        DriftStep::Replay(text) => assert_eq!(text, "\"A-body\""),
        _ => panic!(),
    }
    match rt.drift_call(rid) {
        DriftStep::Replay(text) => assert_eq!(text, "\"B-body\""),
        _ => panic!(),
    }
    let out = rt.finish_request(rid, s("A-bodyB-body")).unwrap();
    rt.resume_cleanup(rid);
    assert_eq!(suspensions, 2);
    assert_eq!(out.timings.len(), 2);
    assert_eq!(out.timings[0].0, "drift");
    assert_eq!(out.timings[1].0, "drift");
    assert!(rt.pending_requests.is_empty());
    assert!(rt.active_requests.is_empty());
}

/// A drift completing with an error is labelled `drift_error`.
#[test]
fn drift_error_timing_label() {
    let mut rt = TitanRuntime::new_worker(0);
    let rid = rt.begin_request();
    let id = match rt.drift_call(rid) {
        DriftStep::Suspend(id) => id,
        _ => panic!(),
    };
    rt.after_execution(rid, dummy_data());
    rt.apply_resume(id, obj(vec![("error", s("boom"))]), 7);
    let out = rt.finish_request(rid, s("x")).unwrap();
    assert_eq!(out.timings[0].0, "drift_error");
}

#[test]
fn pool_try_order_rotates() {
    assert_eq!(worker_try_order(0, 4), vec![0, 1, 2, 3]);
    assert_eq!(worker_try_order(6, 4), vec![2, 3, 0, 1]);
    assert_eq!(worker_try_order(5, 1), vec![0]);
}

fn health_tables() -> (Vec<(String, RouteVal)>, Vec<(String, PrecomputedRoute)>, FastPathRegistry)
{
    let routes = vec![
        ("/health".to_string(), RouteVal { route_type: "text".to_string(), value: s("ok") }),
        ("GET:/".to_string(), RouteVal { route_type: "action".to_string(), value: s("home") }),
    ];
    let pre = vec![("/health".to_string(), PrecomputedRoute::from_text("ok"))];
    let fp = FastPathRegistry::build(vec![]);
    (routes, pre, fp)
}

/// The precomputed text route scenario: a `text` route serves its bytes.
#[test]
fn precomputed_text_route() {
    let (routes, pre, fp) = health_tables();
    match dispatch_early(&routes, &pre, &fp, "GET", "/health") {
        Some(EarlyResponse::Reply(pc)) => {
            assert_eq!(pc.body, "ok");
            assert_eq!(pc.content_type.as_str(), "text/plain; charset=utf-8");
        },
        _ => panic!("the health route must serve its precomputed reply"),
    }
    // Any method matches a bare-path route.
    match dispatch_early(&routes, &pre, &fp, "POST", "/health") {
        Some(EarlyResponse::Reply(_)) => {},
        _ => panic!("bare-path routes accept every method"),
    }
    assert!(dispatch_early(&routes, &pre, &fp, "GET", "/missing").is_none());
}

/// The fast-path scenario: a static action is served without a worker, and
/// repeating the request yields byte-identical bytes.
#[test]
fn fast_path_static_json_action() {
    let routes = vec![(
        "GET:/".to_string(),
        RouteVal { route_type: "action".to_string(), value: s("home") },
    )];
    let pre: Vec<(String, PrecomputedRoute)> = vec![];
    let mut prog = titan::fast_path::Program {
        calls: Vec::new(),
        symbols: Vec::new(),
        member_assign_symbols: Vec::new(),
        member_delete_symbols: Vec::new(),
    };
    let body = titan::fast_path::Expr::Object(vec![
        titan::fast_path::ObjectProp::Prop(
            titan::fast_path::PropKey::Ident("message".to_string()),
            titan::fast_path::Expr::StrLit("Hello, World!".to_string()),
        ),
    ]);
    prog.calls.push(titan::fast_path::CallSite {
        callee: titan::fast_path::Expr::Member {
            object: Box::new(titan::fast_path::Expr::Member {
                object: Box::new(titan::fast_path::Expr::Ident {
                    name: "t".to_string(),
                    symbol: None,
                }),
                prop: "response".to_string(),
            }),
            prop: "json".to_string(),
        },
        args: vec![titan::fast_path::Arg::Expr(body)],
    });
    let fp = FastPathRegistry::build(vec![("home".to_string(), prog)]);
    let first_body;
    match dispatch_early(&routes, &pre, &fp, "GET", "/") {
        Some(EarlyResponse::FastPath(resp)) => {
            assert_eq!(resp.body, "{\"message\":\"Hello, World!\"}");
            assert_eq!(resp.content_type, ContentType::Json);
            assert_eq!(resp.status, 200);
            first_body = resp.body.clone();
        },
        _ => panic!("the static action must be served on the fast path"),
    }
    match dispatch_early(&routes, &pre, &fp, "GET", "/") {
        Some(EarlyResponse::FastPath(resp)) => assert_eq!(resp.body, first_body),
        _ => panic!("repeating the request must serve the identical response"),
    }
}

#[test]
fn action_resolution_and_not_found() {
    let routes = vec![(
        "GET:/".to_string(),
        RouteVal { route_type: "action".to_string(), value: s("home") },
    )];
    let dynamic = vec![DynamicRoute {
        method: "GET".to_string(),
        pattern: "/users/:id<number>".to_string(),
        action: "get_user".to_string(),
    }];
    let exact = resolve_action(&routes, &dynamic, "GET", "/").unwrap();
    assert_eq!(exact.0, "home");
    assert!(exact.1.is_empty());
    let dynamic_hit = resolve_action(&routes, &dynamic, "GET", "/users/42").unwrap();
    assert_eq!(dynamic_hit.0, "get_user");
    assert_eq!(dynamic_hit.1, vec![("id".to_string(), "42".to_string())]);
    assert!(resolve_action(&routes, &dynamic, "GET", "/users/abc").is_none());
    assert!(resolve_action(&routes, &dynamic, "GET", "/nowhere").is_none());
}

#[test]
fn worker_result_assembly() {
    // An error result becomes a 500 carrying the JSON.
    let err = obj(vec![("error", s("boom"))]);
    let r = assemble_worker_response(&err);
    assert_eq!(r.status, 500);
    assert!(r.json_body);
    assert_eq!(r.body, "{\"error\":\"boom\"}");
    // A plain result is served as JSON with 200.
    let plain = obj(vec![("x", JsonValue::Int(1))]);
    let r2 = assemble_worker_response(&plain);
    assert_eq!((r2.status, r2.body.as_str()), (200, "{\"x\":1}"));
    // An `_isResponse` result supplies everything itself.
    let resp = obj(vec![
        ("_isResponse", JsonValue::Bool(true)),
        ("status", JsonValue::Int(201)),
        ("headers", obj(vec![("X-K", s("v"))])),
        ("body", s("made")),
    ]);
    let r3 = assemble_worker_response(&resp);
    assert_eq!(r3.status, 201);
    assert!(!r3.json_body);
    assert_eq!(r3.body, "made");
    assert_eq!(r3.headers, vec![("X-K".to_string(), "v".to_string())]);
    // A redirect coerces a non-3xx status to 302 and clears the body.
    let redir = obj(vec![
        ("_isResponse", JsonValue::Bool(true)),
        ("status", JsonValue::Int(200)),
        ("redirect", s("/there")),
    ]);
    let r4 = assemble_worker_response(&redir);
    assert_eq!(r4.status, 302);
    assert_eq!(r4.body, "");
    assert!(r4.headers.contains(&("Location".to_string(), "/there".to_string())));
    // An already-3xx status is kept.
    let redir2 = obj(vec![
        ("_isResponse", JsonValue::Bool(true)),
        ("status", JsonValue::Int(301)),
        ("redirect", s("/there")),
    ]);
    assert_eq!(assemble_worker_response(&redir2).status, 301);
}

#[test]
fn query_and_keys_and_timing() {
    let q = parse_query("a=1&b=&c&d=x=y");
    assert_eq!(
        q,
        vec![
            ("a".to_string(), "1".to_string()),
            ("b".to_string(), "".to_string()),
            ("c".to_string(), "".to_string()),
            ("d".to_string(), "x=y".to_string()),
        ],
    );
    assert_eq!(strict_key("GET", "/x"), "GET:/x");
    let header = server_timing_value(&vec![
        ("drift".to_string(), 1234u64),
        ("drift_error".to_string(), 45678u64),
    ]);
    assert_eq!(header, "drift_0;dur=1.23, drift_error_1;dur=45.67");
}

#[test]
fn async_op_decoding() {
    let desc = obj(vec![
        ("__titanAsync", JsonValue::Bool(true)),
        ("type", s("fetch")),
        (
            "data",
            obj(vec![
                ("url", s("https://echo/")),
                (
                    "opts",
                    obj(vec![
                        ("method", s("POST")),
                        ("body", s("hi")),
                        ("headers", obj(vec![("a", s("b")), ("n", JsonValue::Int(7))])),
                    ]),
                ),
            ]),
        ),
    ]);
    match parse_async_op(&desc).unwrap() {
        TitanAsyncOp::Fetch { url, method, body, headers } => {
            assert_eq!(url, "https://echo/");
            assert_eq!(method, "POST");
            assert_eq!(body, Some("hi".to_string()));
            assert_eq!(
                headers,
                vec![("a".to_string(), "b".to_string()), ("n".to_string(), "7".to_string())],
            );
        },
        _ => panic!("must decode as a fetch"),
    }
    // Method defaults to GET.
    let bare = obj(vec![("type", s("fetch")), ("data", obj(vec![("url", s("u"))]))]);
    match parse_async_op(&bare).unwrap() {
        TitanAsyncOp::Fetch { method, body, headers, .. } => {
            assert_eq!(method, "GET");
            assert!(body.is_none());
            assert!(headers.is_empty());
        },
        _ => panic!(),
    }
    // An unknown type decodes to nothing.
    let unknown = obj(vec![("type", s("nope")), ("data", obj(vec![]))]);
    assert!(parse_async_op(&unknown).is_none());
    // A batch keeps declaration order.
    let fsa = obj(vec![("type", s("fs_read")), ("data", obj(vec![("path", s("a.txt"))]))]);
    let fsb = obj(vec![("type", s("fs_read")), ("data", obj(vec![("path", s("b.txt"))]))]);
    let batch = JsonValue::Arr(vec![fsa, fsb]);
    match parse_drift_arg(&batch).unwrap() {
        TitanAsyncOp::Batch(ops) => {
            assert_eq!(ops.len(), 2);
            match (&ops[0], &ops[1]) {
                (TitanAsyncOp::FsRead { path: p0 }, TitanAsyncOp::FsRead { path: p1 }) => {
                    assert_eq!((p0.as_str(), p1.as_str()), ("a.txt", "b.txt"));
                },
                _ => panic!(),
            }
        },
        _ => panic!("an array decodes as a batch"),
    }
}

/// A batch is one suspension: a single drift id covers all its operations.
#[test]
fn batch_is_one_suspension() {
    let mut rt = TitanRuntime::new_worker(0);
    let rid = rt.begin_request();
    match rt.drift_call(rid) {
        DriftStep::Suspend(id) => assert_eq!(id, 1),
        _ => panic!(),
    }
    rt.after_execution(rid, dummy_data());
    let results = JsonValue::Arr(vec![s("ra"), s("rb")]);
    rt.apply_resume(1, results, 5);
    match rt.drift_call(rid) {
        DriftStep::Replay(text) => assert_eq!(text, "[\"ra\",\"rb\"]"),
        _ => panic!("the batch result must replay in declaration order"),
    }
}

#[test]
fn path_guard() {
    assert!(path_within_root("/proj", "/proj/data/file.txt"));
    assert!(path_within_root("/proj", "/proj"));
    assert!(!path_within_root("/proj", "/projx/file.txt"));
    assert!(!path_within_root("/proj", "/etc/passwd"));
    match fs_read_step("/proj", Some("/proj/ok.txt")) {
        FsReadStep::Read => {},
        _ => panic!("a path inside the root must be read"),
    }
    match fs_read_step("/proj", Some("/etc/passwd")) {
        FsReadStep::DenyAccess => {},
        _ => panic!("a path outside the root must be denied"),
    }
    match fs_read_step("/proj", None) {
        FsReadStep::DenyAccess => {},
        _ => panic!("a failed canonicalization must be denied"),
    }
    assert_eq!(to_json_string(&access_denied_result()), "{\"error\":\"Access denied\"}");
}

#[test]
fn db_pool_size_option() {
    assert_eq!(db_connect_max_size(&obj(vec![("max", JsonValue::Int(4))])), 4);
    assert_eq!(db_connect_max_size(&obj(vec![])), 16);
    assert_eq!(db_connect_max_size(&obj(vec![("max", s("x"))])), 16);
}

#[test]
fn sentinel_and_sources() {
    assert!(is_suspend_sentinel("Uncaught Error: __SUSPEND__"));
    assert!(is_suspend_sentinel(&suspend_sentinel_message()));
    assert!(!is_suspend_sentinel("Uncaught TypeError: boom"));
    assert_eq!(
        wrapped_action_source("return 1;", "home"),
        "(function() { return 1; })(); globalThis[\"home\"];",
    );
    assert_eq!(
        native_wrapper_source(3),
        "(function(...args) { return __titan_invoke_native(3, args); })",
    );
    assert_eq!(to_json_string(&action_error_result("boom")), "{\"error\":\"boom\"}");
    assert_eq!(
        to_json_string(&action_not_found_result("gone")),
        "{\"error\":\"Action 'gone' not found\"}",
    );
}

#[test]
fn finish_result_normalization() {
    let raw = obj(vec![
        ("_isResponse", JsonValue::Bool(true)),
        ("status", JsonValue::Int(200)),
        ("body", s("{\"x\":1}")),
        ("headers", obj(vec![("k", JsonValue::Int(5))])),
    ]);
    let n = normalize_finish_result(raw);
    assert_eq!(
        to_json_string(&n),
        "{\"_isResponse\":true,\"status\":200,\"body\":\"{\\\"x\\\":1}\",\"headers\":{\"k\":\"5\"}}",
    );
    // A result without the flag passes through unchanged.
    let plain = obj(vec![("y", JsonValue::Int(2))]);
    assert_eq!(to_json_string(&normalize_finish_result(plain)), "{\"y\":2}");
}

#[test]
fn token_signing_round_trips() {
    let payload = obj(vec![("sub", s("alice"))]);
    let token = sign_token(payload, Some(3600), 1_700_000_000, "SECRET-REDACTED")
        .expect("signing must succeed");
    // The token is a JWT, not the claims text handed to the signer.
    assert!(token.starts_with("eyJ"));
    assert_eq!(token.split('.').count(), 3);
    // Decoding with the same secret recovers the claims, expiry included.
    let mut validation = jsonwebtoken::Validation::default();
    validation.validate_exp = false;
    validation.required_spec_claims.clear();
    let data = jsonwebtoken::decode::<serde_json::Value>(
        &token,
        &jsonwebtoken::DecodingKey::from_secret(b"SECRET-REDACTED"),
        &validation,
    )
    .expect("the token must decode with the same secret");
    assert_eq!(data.claims["sub"], serde_json::Value::from("alice"));
    assert_eq!(data.claims["exp"], serde_json::Value::from(1_700_003_600i64));
    // Signing the same payload twice yields the same token.
    let payload2 = obj(vec![("sub", s("alice"))]);
    let token2 = sign_token(payload2, Some(3600), 1_700_000_000, "SECRET-REDACTED").unwrap();
    assert_eq!(token, token2);
}

#[test]
fn extension_registry() {
    assert_eq!(parse_type("string"), ParamType::Text);
    assert_eq!(parse_type("f64"), ParamType::F64);
    assert_eq!(parse_type("mystery"), ParamType::Json);
    assert_eq!(parse_return("void"), ReturnType::Void);
    assert_eq!(parse_return("buffer"), ReturnType::Buffer);
    assert_eq!(parse_return("mystery"), ReturnType::Void);
    let manifests = vec![ManifestInput {
        name: "mathx".to_string(),
        js: "t.mathx.ready = true;".to_string(),
        functions: vec![
            NativeFuncDecl {
                name: "add".to_string(),
                symbol_ptr: Some(0x1000),
                parameters: vec!["f64".to_string(), "f64".to_string()],
                result: "f64".to_string(),
            },
            NativeFuncDecl {
                name: "gone".to_string(),
                symbol_ptr: None,
                parameters: vec![],
                result: "void".to_string(),
            },
        ],
    }];
    let reg = load_project_extensions(manifests);
    assert_eq!(reg.modules.len(), 1);
    assert_eq!(reg.modules[0].name, "mathx");
    assert_eq!(reg.modules[0].native_indices, vec![("add".to_string(), 0)]);
    assert_eq!(reg.natives.len(), 1);
    assert_eq!(reg.natives[0].symbol_ptr, 0x1000);
    assert_eq!(reg.natives[0].sig.params, vec![ParamType::F64, ParamType::F64]);
    assert_eq!(reg.natives[0].sig.ret, ReturnType::F64);
}

#[test]
fn share_context_last_write_wins() {
    let mut ctx = ShareContextStore::new();
    ctx.set("k".to_string(), JsonValue::Int(1));
    ctx.set("l".to_string(), s("x"));
    ctx.set("k".to_string(), JsonValue::Int(2));
    match ctx.get("k") {
        Some(JsonValue::Int(2)) => {},
        _ => panic!("readers observe the last write"),
    }
    assert_eq!(ctx.keys(), vec!["k".to_string(), "l".to_string()]);
    ctx.delete("k");
    assert!(ctx.get("k").is_none());
    assert!(ctx.get("l").is_some());
}
