//! Support for the scripting-engine boundary: the suspend sentinel, action
//! error values, the sources evaluated in an isolate, the fast field
//! extraction of finished results, and signed tokens.
//!
//! The engine itself runs outside the library; these are the decisions and
//! values it needs.

use vstd::prelude::*;

use crate::json::{
    JsonValue, JsonVal, jv, jv_members, jv_members_set, jv_obj_get, spec_json, to_json_string,
    members_set, obj_get, lemma_jv_members_len, lemma_jv_members_index,
};
use crate::strutil::{chars_vec, contains_chars, spec_contains_seq, string_from_chars};

verus! {

/// Whether an exception message is the suspend sentinel that unwinds the
/// isolate at a drift: any message containing `SUSPEND`.
pub fn is_suspend_sentinel(msg: &str) -> (r: bool)
    ensures
        r == spec_contains_seq(msg@, "SUSPEND"@),
{
    let mc = chars_vec(msg);
    let needle = chars_vec("SUSPEND");
    contains_chars(&mc, &needle)
}

/// The message the suspend sentinel is thrown with.
pub fn suspend_sentinel_message() -> (r: String)
    ensures
        r@ == "__SUSPEND__"@,
        spec_contains_seq(r@, "SUSPEND"@),
{
    let r = String::from_str("__SUSPEND__");
    proof {
        reveal_strlit("__SUSPEND__");
        reveal_strlit("SUSPEND");
        assert(r@.subrange(2, 2 + "SUSPEND"@.len() as int) =~= "SUSPEND"@);
    }
    r
}

/// An action error as a worker result: `{"error": <message>}`.
pub fn action_error_result(msg: &str) -> (r: JsonValue)
    ensures
        jv_obj_get(jv(r), "error"@) == Some(JsonVal::Str(msg@)),
{
    broadcast use lemma_jv_members_len, lemma_jv_members_index;

    let mut pairs: Vec<(String, JsonValue)> = Vec::new();
    pairs.push((String::from_str("error"), JsonValue::Str(String::from_str(msg))));
    proof {
        assert(jv_members(pairs@)[0] == ("error"@, JsonVal::Str(msg@)));
    }
    JsonValue::Obj(pairs)
}

/// The error a worker reports for a request naming an unknown action.
pub fn action_not_found_result(action_name: &str) -> (r: JsonValue)
    ensures
        jv_obj_get(jv(r), "error"@) == Some(
            JsonVal::Str("Action '"@ + action_name@ + "' not found"@),
        ),
{
    broadcast use lemma_jv_members_len, lemma_jv_members_index;

    let mut msg = String::from_str("Action '");
    msg.append(action_name);
    msg.append("' not found");
    let mut pairs: Vec<(String, JsonValue)> = Vec::new();
    pairs.push((String::from_str("error"), JsonValue::Str(msg)));
    proof {
        assert(jv_members(pairs@)[0].0 == "error"@);
    }
    JsonValue::Obj(pairs)
}

/// The source evaluated to register one action: the file's code run inside
/// a function scope, then the action function looked up by its name.
pub fn wrapped_action_source(code: &str, name: &str) -> (r: String)
    ensures
        r@ == "(function() { "@ + code@ + " })(); globalThis[\""@ + name@ + "\"];"@,
{
    let mut out = String::from_str("(function() { ");
    out.append(code);
    out.append(" })(); globalThis[\"");
    out.append(name);
    out.append("\"];");
    out
}

/// How a finished result is normalized when it carries `_isResponse`: the
/// status is kept when integral, the body is kept when a string and
/// serialized otherwise (absent when null or missing), and the headers keep
/// their text-valued members. Any other result passes through unchanged.
pub open spec fn spec_normalize_finish(m: JsonVal) -> JsonVal {
    if jv_obj_get(m, "_isResponse"@) == Some(JsonVal::Bool(true)) {
        let base = seq![("_isResponse"@, JsonVal::Bool(true))];
        let with_status = match jv_obj_get(m, "status"@) {
            Some(JsonVal::Int(n)) => base.push(("status"@, JsonVal::Int(n))),
            _ => base,
        };
        let with_body = match jv_obj_get(m, "body"@) {
            Some(JsonVal::Str(s)) => with_status.push(("body"@, JsonVal::Str(s))),
            Some(JsonVal::Null) => with_status,
            Some(v) => with_status.push(("body"@, JsonVal::Str(spec_json(v)))),
            None => with_status,
        };
        let with_headers = match jv_obj_get(m, "headers"@) {
            Some(JsonVal::Obj(hs)) => with_body.push(
                ("headers"@, JsonVal::Obj(spec_text_members(hs))),
            ),
            _ => with_body,
        };
        JsonVal::Obj(with_headers)
    } else {
        m
    }
}

/// The members of a headers object with each value coerced to text;
/// members with aggregate values are left out.
pub open spec fn spec_text_members(hs: Seq<(Seq<char>, JsonVal)>) -> Seq<(Seq<char>, JsonVal)>
    decreases hs,
{
    if hs.len() == 0 {
        Seq::empty()
    } else {
        spec_text_members(hs.drop_last()) + (match crate::fast_path::spec_tpl_coerce(
            hs.last().1,
        ) {
            Some(t) => seq![(hs.last().0, JsonVal::Str(t))],
            None => Seq::empty(),
        })
    }
}

/// Normalize a finished result: a result flagged `_isResponse` has its
/// status, body and headers extracted field by field, the body passed
/// through as a string without re-serialization; anything else passes
/// through unchanged.
#[verifier::loop_isolation(false)]
pub fn normalize_finish_result(result: JsonValue) -> (r: JsonValue)
    ensures
        jv(r) == spec_normalize_finish(jv(result)),
{
    broadcast use lemma_jv_members_len, lemma_jv_members_index;

    let flagged = match obj_get(&result, "_isResponse") {
        Some(JsonValue::Bool(b)) => *b,
        _ => false,
    };
    if !flagged {
        return result;
    }
    let mut pairs: Vec<(String, JsonValue)> = Vec::new();
    pairs.push((String::from_str("_isResponse"), JsonValue::Bool(true)));
    proof {
        assert(jv_members(pairs@) =~= seq![("_isResponse"@, JsonVal::Bool(true))]);
    }
    match obj_get(&result, "status") {
        Some(JsonValue::Int(n)) => {
            let ghost prior = pairs@;
            pairs.push((String::from_str("status"), JsonValue::Int(*n)));
            proof {
                assert(pairs@.drop_last() =~= prior);
                assert(jv_members(pairs@) =~= jv_members(prior).push(
                    ("status"@, JsonVal::Int(*n as int)),
                ));
            }
        },
        _ => {},
    }
    match obj_get(&result, "body") {
        Some(bv) => {
            match bv {
                JsonValue::Str(s) => {
                    let ghost prior = pairs@;
                    pairs.push((String::from_str("body"), JsonValue::Str(s.clone())));
                    proof {
                        assert(pairs@.drop_last() =~= prior);
                        assert(jv_members(pairs@) =~= jv_members(prior).push(
                            ("body"@, JsonVal::Str(s@)),
                        ));
                    }
                },
                JsonValue::Null => {},
                _ => {
                    let ghost prior = pairs@;
                    let text = to_json_string(bv);
                    pairs.push((String::from_str("body"), JsonValue::Str(text)));
                    proof {
                        assert(pairs@.drop_last() =~= prior);
                        assert(jv_members(pairs@) =~= jv_members(prior).push(
                            ("body"@, JsonVal::Str(spec_json(jv(*bv)))),
                        ));
                    }
                },
            }
        },
        None => {},
    }
    match obj_get(&result, "headers") {
        Some(hval) => {
            match hval {
                JsonValue::Obj(hs) => {
                    let ghost model = jv_members(hs@);
                    let mut hout: Vec<(String, JsonValue)> = Vec::new();
                    let mut i: usize = 0;
                    proof {
                        assert(model.take(0) =~= Seq::<(Seq<char>, JsonVal)>::empty());
                        assert(jv_members(hout@) =~= spec_text_members(model.take(0)));
                    }
                    while i < hs.len()
                        invariant
                            0 <= i <= hs@.len(),
                            model == jv_members(hs@),
                            jv_members(hout@) == spec_text_members(model.take(i as int)),
                        decreases hs.len() - i,
                    {
                        proof {
                            assert(model.take(i + 1).drop_last() =~= model.take(i as int));
                            assert(model.take(i + 1).last() == model[i as int]);
                        }
                        match tpl_coerce_local(&hs[i].1) {
                            Some(t) => {
                                let ghost prior = hout@;
                                hout.push((hs[i].0.clone(), JsonValue::Str(t)));
                                proof {
                                    assert(hout@.drop_last() =~= prior);
                                    assert(jv_members(hout@) =~= spec_text_members(
                                        model.take(i + 1),
                                    ));
                                }
                            },
                            None => {
                                proof {
                                    assert(jv_members(hout@) =~= spec_text_members(
                                        model.take(i + 1),
                                    ));
                                }
                            },
                        }
                        i += 1;
                    }
                    proof {
                        assert(model.take(hs@.len() as int) =~= model);
                    }
                    let ghost prior = pairs@;
                    pairs.push((String::from_str("headers"), JsonValue::Obj(hout)));
                    proof {
                        assert(pairs@.drop_last() =~= prior);
                        assert(jv_members(pairs@) =~= jv_members(prior).push(
                            ("headers"@, JsonVal::Obj(spec_text_members(model))),
                        ));
                    }
                },
                _ => {},
            }
        },
        None => {},
    }
    JsonValue::Obj(pairs)
}

fn tpl_coerce_local(v: &JsonValue) -> (r: Option<String>)
    ensures
        match r {
            Some(s) => crate::fast_path::spec_tpl_coerce(jv(*v)) == Some(s@),
            None => crate::fast_path::spec_tpl_coerce(jv(*v)) is None,
        },
{
    match v {
        JsonValue::Str(s) => Some(s.clone()),
        JsonValue::Int(i) => Some(crate::strutil::i64_to_string(*i)),
        JsonValue::Dec(t) => Some(t.clone()),
        JsonValue::Bool(b) => {
            if *b {
                let s = String::from_str("true");
                proof {
                    reveal_strlit("true");
                    assert(s@ =~= seq!['t', 'r', 'u', 'e']);
                }
                Some(s)
            } else {
                let s = String::from_str("false");
                proof {
                    reveal_strlit("false");
                    assert(s@ =~= seq!['f', 'a', 'l', 's', 'e']);
                }
                Some(s)
            }
        },
        JsonValue::Null => {
            let s = String::from_str("null");
            proof {
                reveal_strlit("null");
                assert(s@ =~= seq!['n', 'u', 'l', 'l']);
            }
            Some(s)
        },
        _ => None,
    }
}

/// The token signing yields for given claims text and secret.
pub uninterp spec fn jwt_token_of(claims: Seq<char>, secret: Seq<char>) -> Seq<char>;

/// Relies on jsonwebtoken::encode with the default header (HS256): the
/// token is base64 of the header and claims JSON joined with the HMAC
/// signature, all functions of the claims text and the secret alone.
#[verifier::external_body]
fn jwt_sign_text(claims_json: &str, secret: &str) -> (r: Option<String>)
    ensures
        r matches Some(t) ==> t@ == jwt_token_of(claims_json@, secret@),
{
    let claims: serde_json::Value = match serde_json::from_str(claims_json) {
        Ok(v) => v,
        Err(_) => {
            return None;
        },
    };
    let key = jsonwebtoken::EncodingKey::from_secret(secret.as_bytes());
    jsonwebtoken::encode(&jsonwebtoken::Header::default(), &claims, &key).ok()
}

/// The claims a token carries: the payload's members (an empty object when
/// the payload is not one), with `exp` bound to `now + expires_in` when an
/// expiry is requested and the sum is representable.
pub open spec fn spec_jwt_claims(payload: JsonVal, expires_in: Option<u64>, now: u64) -> JsonVal {
    let base = match payload {
        JsonVal::Obj(ps) => ps,
        _ => Seq::empty(),
    };
    match expires_in {
        Some(sec) => if now + sec <= i64::MAX {
            JsonVal::Obj(jv_members_set(base, "exp"@, JsonVal::Int(now + sec)))
        } else {
            JsonVal::Obj(base)
        },
        None => JsonVal::Obj(base),
    }
}

/// Build the claims for a token: the payload's members with `exp` set when
/// an expiry is requested.
pub fn jwt_claims_with_exp(payload: JsonValue, expires_in: Option<u64>, now: u64) -> (r: JsonValue)
    ensures
        jv(r) == spec_jwt_claims(jv(payload), expires_in, now),
{
    broadcast use lemma_jv_members_len, lemma_jv_members_index;

    let mut pairs: Vec<(String, JsonValue)> = match payload {
        JsonValue::Obj(ps) => ps,
        _ => Vec::new(),
    };
    proof {
        if pairs@.len() == 0 {
            assert(jv_members(pairs@) =~= Seq::<(Seq<char>, JsonVal)>::empty());
        }
    }
    match expires_in {
        Some(sec) => {
            match now.checked_add(sec) {
                Some(e) => {
                    if e <= i64::MAX as u64 {
                        members_set(&mut pairs, String::from_str("exp"), JsonValue::Int(e as i64));
                    }
                },
                None => {},
            }
        },
        None => {},
    }
    JsonValue::Obj(pairs)
}

/// Sign a token over the payload: the claims (with `exp` set when
/// requested) are serialized and signed with the secret. `None` reports a
/// signing failure.
pub fn sign_token(payload: JsonValue, expires_in: Option<u64>, now: u64, secret: &str) -> (r:
    Option<String>)
    ensures
        r matches Some(t) ==> t@ == jwt_token_of(
            spec_json(spec_jwt_claims(jv(payload), expires_in, now)),
            secret@,
        ),
{
    let claims = jwt_claims_with_exp(payload, expires_in, now);
    let text = to_json_string(&claims);
    jwt_sign_text(text.as_str(), secret)
}

} // verus!
