//! Tests of the static-response analyzer and the fast-path registry.

use titan::fast_path::{
    Expr, JsNum, Arg, CallSite, ObjectProp, ArrayElem, PropKey, DeclKind, SymbolInfo, Program,
    eval_static, analyze_program, detect_response_method, RespMethod, ContentType,
    FastPathRegistry, PrecomputedRoute, is_object_mutated,
};
use titan::json::{JsonValue, to_json_string};

fn ident(name: &str, symbol: Option<u32>) -> Expr {
    Expr::Ident { name: name.to_string(), symbol }
}

fn member(object: Expr, prop: &str) -> Expr {
    Expr::Member { object: Box::new(object), prop: prop.to_string() }
}

fn response_callee(method: &str) -> Expr {
    member(member(ident("t", None), "response"), method)
}

fn empty_program() -> Program {
    Program {
        calls: Vec::new(),
        symbols: Vec::new(),
        member_assign_symbols: Vec::new(),
        member_delete_symbols: Vec::new(),
    }
}

fn str_lit(x: &str) -> Expr {
    Expr::StrLit(x.to_string())
}

fn obj_lit(pairs: Vec<(&str, Expr)>) -> Expr {
    let mut props: Vec<ObjectProp> = Vec::new();
    for (k, v) in pairs {
        props.push(ObjectProp::Prop(PropKey::Ident(k.to_string()), v));
    }
    Expr::Object(props)
}

#[test]
fn detects_response_chain() {
    assert_eq!(detect_response_method(&response_callee("json")), Some(RespMethod::Json));
    assert_eq!(detect_response_method(&response_callee("text")), Some(RespMethod::Text));
    assert_eq!(detect_response_method(&response_callee("html")), Some(RespMethod::Html));
    assert_eq!(detect_response_method(&response_callee("xml")), None);
    // The chain must hang off the free name `t`.
    let wrong = member(member(ident("u", None), "response"), "json");
    assert_eq!(detect_response_method(&wrong), None);
}

#[test]
fn eval_static_literals_and_arith() {
    let prog = empty_program();
    let e = Expr::Add(
        Box::new(Expr::NumLit(JsNum::Int(40))),
        Box::new(Expr::NumLit(JsNum::Int(2))),
    );
    match eval_static(&prog, &e, 0) {
        Some(JsonValue::Int(42)) => {},
        _ => panic!("40 + 2 must fold to 42"),
    }
    let cat = Expr::Add(Box::new(str_lit("n=")), Box::new(Expr::NumLit(JsNum::Int(7))));
    match eval_static(&prog, &cat, 0) {
        Some(JsonValue::Str(s)) => assert_eq!(s, "n=7"),
        _ => panic!("string concat must fold"),
    }
    let neg = Expr::Neg(Box::new(Expr::NumLit(JsNum::Int(5))));
    match eval_static(&prog, &neg, 0) {
        Some(JsonValue::Int(-5)) => {},
        _ => panic!("negation must fold"),
    }
    assert!(eval_static(&prog, &Expr::Opaque, 0).is_none());
}

#[test]
fn eval_static_template() {
    let prog = empty_program();
    let tpl = Expr::Template {
        quasis: vec![Some("v".to_string()), Some("!".to_string())],
        exprs: vec![Expr::NumLit(JsNum::Int(3))],
    };
    match eval_static(&prog, &tpl, 0) {
        Some(JsonValue::Str(s)) => assert_eq!(s, "v3!"),
        _ => panic!("template must fold"),
    }
}

#[test]
fn eval_static_resolves_constants_but_not_written_symbols() {
    let mut prog = empty_program();
    prog.symbols.push(SymbolInfo { written: false, decl: DeclKind::VarInit(str_lit("ok")) });
    prog.symbols.push(SymbolInfo { written: true, decl: DeclKind::VarInit(str_lit("no")) });
    prog.symbols.push(SymbolInfo { written: false, decl: DeclKind::VarNoInit });
    match eval_static(&prog, &ident("a", Some(0)), 0) {
        Some(JsonValue::Str(s)) => assert_eq!(s, "ok"),
        _ => panic!("constant symbol must resolve"),
    }
    assert!(eval_static(&prog, &ident("b", Some(1)), 0).is_none());
    match eval_static(&prog, &ident("c", Some(2)), 0) {
        Some(JsonValue::Null) => {},
        _ => panic!("declared-without-init resolves to null"),
    }
    assert!(eval_static(&prog, &ident("free", None), 0).is_none());
}

#[test]
fn mutated_aggregates_are_dynamic() {
    let mut prog = empty_program();
    prog.symbols.push(
        SymbolInfo { written: false, decl: DeclKind::VarInit(obj_lit(vec![("a", str_lit("x"))])) },
    );
    // list.push(...) somewhere in the file, on the same symbol.
    prog.calls.push(
        CallSite { callee: member(ident("list", Some(0)), "push"), args: vec![] },
    );
    assert!(is_object_mutated(&prog, 0));
    assert!(eval_static(&prog, &ident("list", Some(0)), 0).is_none());
    // An unrelated method name does not count as mutation.
    let mut prog2 = empty_program();
    prog2.symbols.push(
        SymbolInfo { written: false, decl: DeclKind::VarInit(obj_lit(vec![("a", str_lit("x"))])) },
    );
    prog2.calls.push(
        CallSite { callee: member(ident("list", Some(0)), "slice"), args: vec![] },
    );
    assert!(!is_object_mutated(&prog2, 0));
    assert!(eval_static(&prog2, &ident("list", Some(0)), 0).is_some());
}

/// The fast-path action of the hello scenario: a single response call with
/// a constant object.
fn hello_program() -> Program {
    let body = obj_lit(vec![("message", str_lit("Hello, World!"))]);
    let response_call = CallSite { callee: response_callee("json"), args: vec![Arg::Expr(body)] };
    let finish_call = CallSite {
        callee: member(ident("t", None), "_finish_request"),
        args: vec![
            Arg::Expr(member(ident("req", None), "__titan_request_id")),
            Arg::Expr(Expr::Opaque),
        ],
    };
    let mut prog = empty_program();
    prog.calls.push(finish_call);
    prog.calls.push(response_call);
    prog
}

#[test]
fn static_json_action_is_detected() {
    let resp = analyze_program(&hello_program()).expect("hello action must be static");
    assert_eq!(resp.body, "{\"message\":\"Hello, World!\"}");
    assert_eq!(resp.content_type, ContentType::Json);
    assert_eq!(resp.content_type.as_str(), "application/json");
    assert_eq!(resp.status, 200);
    assert!(resp.extra_headers.is_empty());
}

#[test]
fn status_and_headers_options() {
    let body = str_lit("made");
    let opts = obj_lit(vec![
        ("status", Expr::NumLit(JsNum::Int(201))),
        ("headers", obj_lit(vec![("X-Tag", str_lit("v1"))])),
    ]);
    let call = CallSite {
        callee: response_callee("text"),
        args: vec![Arg::Expr(body), Arg::Expr(opts)],
    };
    let mut prog = empty_program();
    prog.calls.push(call);
    let resp = analyze_program(&prog).unwrap();
    assert_eq!(resp.status, 201);
    assert_eq!(resp.content_type, ContentType::TextPlain);
    assert_eq!(resp.body, "made");
    assert_eq!(resp.extra_headers, vec![("X-Tag".to_string(), "v1".to_string())]);
}

#[test]
fn status_clamps_to_valid_range() {
    for (given, expected) in [(99i64, 200u16), (100, 100), (599, 599), (600, 200), (-5, 200)] {
        let opts = obj_lit(vec![("status", Expr::NumLit(JsNum::Int(given)))]);
        let call = CallSite {
            callee: response_callee("text"),
            args: vec![Arg::Expr(str_lit("b")), Arg::Expr(opts)],
        };
        let mut prog = empty_program();
        prog.calls.push(call);
        let resp = analyze_program(&prog).unwrap();
        assert_eq!(resp.status, expected, "status {} must become {}", given, expected);
    }
}

#[test]
fn disagreeing_or_dynamic_responses_disable_the_fast_path() {
    // Two response calls with different bodies: not static.
    let mut prog = empty_program();
    prog.calls.push(
        CallSite { callee: response_callee("text"), args: vec![Arg::Expr(str_lit("a"))] },
    );
    prog.calls.push(
        CallSite { callee: response_callee("text"), args: vec![Arg::Expr(str_lit("b"))] },
    );
    assert!(analyze_program(&prog).is_none());
    // A spread argument: dynamic.
    let mut prog2 = empty_program();
    prog2.calls.push(CallSite { callee: response_callee("json"), args: vec![Arg::Spread] });
    assert!(analyze_program(&prog2).is_none());
    // A dynamic body disqualifies even when a second call is static.
    let mut prog3 = empty_program();
    prog3.calls.push(
        CallSite { callee: response_callee("text"), args: vec![Arg::Expr(str_lit("a"))] },
    );
    prog3.calls.push(
        CallSite { callee: response_callee("text"), args: vec![Arg::Expr(Expr::Opaque)] },
    );
    assert!(analyze_program(&prog3).is_none());
    // No response calls at all: nothing to register.
    assert!(analyze_program(&empty_program()).is_none());
}

#[test]
fn registry_builds_and_looks_up() {
    let programs = vec![
        ("home".to_string(), hello_program()),
        ("dyn".to_string(), {
            let mut p = empty_program();
            p.calls.push(
                CallSite { callee: response_callee("json"), args: vec![Arg::Expr(Expr::Opaque)] },
            );
            p
        }),
    ];
    let reg = FastPathRegistry::build(programs);
    assert_eq!(reg.len(), 1);
    let hit = reg.get("home").expect("home must be fast-pathed");
    assert_eq!(hit.body, "{\"message\":\"Hello, World!\"}");
    assert!(reg.get("dyn").is_none());
    assert!(reg.get("missing").is_none());
}

#[test]
fn precomputed_routes() {
    let pc = PrecomputedRoute::from_text("ok");
    assert_eq!(pc.body, "ok");
    assert_eq!(pc.content_type.as_str(), "text/plain; charset=utf-8");
    let payload = obj_lit(vec![]);
    let _ = payload;
    let v = JsonValue::Obj(vec![("a".to_string(), JsonValue::Int(1))]);
    let pj = PrecomputedRoute::from_json(&v);
    assert_eq!(pj.body, "{\"a\":1}");
    assert_eq!(pj.content_type.as_str(), "application/json");
    assert_eq!(to_json_string(&v), pj.body);
}

#[test]
fn inexact_integer_addition_is_dynamic() {
    let prog = empty_program();
    let big = 0x20000000000000i64;
    let e = Expr::Add(
        Box::new(Expr::NumLit(JsNum::Int(big))),
        Box::new(Expr::NumLit(JsNum::Int(1))),
    );
    assert!(eval_static(&prog, &e, 0).is_none());
    let exact = Expr::Add(
        Box::new(Expr::NumLit(JsNum::Int(big - 1))),
        Box::new(Expr::NumLit(JsNum::Int(1))),
    );
    match eval_static(&prog, &exact, 0) {
        Some(JsonValue::Int(v)) => assert_eq!(v, big),
        _ => panic!("an exact sum must fold"),
    }
}

#[test]
fn evaluation_depth_is_capped() {
    let prog = empty_program();
    let mut deep = Expr::NumLit(JsNum::Int(1));
    for _ in 0..17 {
        deep = Expr::Neg(Box::new(deep));
    }
    assert!(eval_static(&prog, &deep, 0).is_none());
    let mut shallow = Expr::NumLit(JsNum::Int(1));
    for _ in 0..10 {
        shallow = Expr::Neg(Box::new(shallow));
    }
    assert!(eval_static(&prog, &shallow, 0).is_some());
}

#[test]
fn decimal_numbers_flow_through() {
    let prog = empty_program();
    let e = Expr::NumLit(JsNum::Dec("1.5".to_string()));
    match eval_static(&prog, &e, 0) {
        Some(JsonValue::Dec(t)) => assert_eq!(t, "1.5"),
        _ => panic!("a decimal literal is static"),
    }
    let neg = Expr::Neg(Box::new(Expr::NumLit(JsNum::Dec("1.5".to_string()))));
    match eval_static(&prog, &neg, 0) {
        Some(JsonValue::Dec(t)) => assert_eq!(t, "-1.5"),
        _ => panic!("a negated decimal is static"),
    }
}
