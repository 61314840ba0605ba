//! The route table and the dynamic route matcher.
//!
//! A dynamic route pattern is a `/`-delimited sequence of literal segments
//! and placeholders `:name` or `:name<type>`. A `number` placeholder accepts
//! any lexical signed 64-bit integer; a `string` placeholder accepts any
//! non-empty segment; an unknown type rejects.

use vstd::prelude::*;

use crate::json::JsonValue;
use crate::strutil::{chars_vec, string_from_chars, eq_chars, spec_is_i64, is_lexical_i64};
use crate::strsplit::{
    spec_split, spec_trim, spec_trim_end, spec_rfind, split_chars, trim_chars, trim_end_chars,
    rfind_char, spec_find, lemma_find, copy_range, views_of,
};

verus! {

/// One exact route: its payload type tag and its payload.
pub struct RouteVal {
    /// One of `"action"`, `"json"`, `"text"`, or another tag served as a
    /// literal string.
    pub route_type: String,
    pub value: JsonValue,
}

/// One dynamic route: method, `/`-delimited pattern, action name.
pub struct DynamicRoute {
    pub method: String,
    pub pattern: String,
    pub action: String,
}

/// The pattern type name `number`.
pub open spec fn number_type_name() -> Seq<char> {
    seq!['n', 'u', 'm', 'b', 'e', 'r']
}

/// The pattern type name `string`.
pub open spec fn string_type_name() -> Seq<char> {
    seq!['s', 't', 'r', 'i', 'n', 'g']
}

/// Whether a pattern segment is a placeholder (`:name` or `:name<type>`).
pub open spec fn seg_is_placeholder(seg: Seq<char>) -> bool {
    seg.len() > 0 && seg[0] == ':'
}

/// The name a placeholder segment binds: what stands between `:` and the
/// first `<`, if any.
pub open spec fn spec_ph_name(seg: Seq<char>) -> Seq<char> {
    let inner = seg.skip(1);
    let k = spec_find(inner, '<');
    if k < inner.len() {
        inner.take(k)
    } else {
        inner
    }
}

/// The type a placeholder segment declares: what follows the first `<`,
/// with trailing `>` removed; `string` when no type is written.
pub open spec fn spec_ph_type(seg: Seq<char>) -> Seq<char> {
    let inner = seg.skip(1);
    let k = spec_find(inner, '<');
    if k < inner.len() {
        spec_trim_end(inner.skip(k + 1), '>')
    } else {
        string_type_name()
    }
}

/// Whether one pattern segment accepts one path segment.
pub open spec fn spec_seg_matches(pat: Seq<char>, val: Seq<char>) -> bool {
    if seg_is_placeholder(pat) {
        let ty = spec_ph_type(pat);
        if ty == number_type_name() {
            spec_is_i64(val)
        } else if ty == string_type_name() {
            val.len() > 0
        } else {
            false
        }
    } else {
        pat == val
    }
}

/// The segments of a pattern or path: trimmed of surrounding slashes, then
/// split on `/`.
pub open spec fn spec_segments(s: Seq<char>) -> Seq<Seq<char>> {
    spec_split(spec_trim(s, '/'), '/')
}

/// Whether a route accepts a request: equal method, equal segment count,
/// and each pattern segment accepting its path segment.
pub open spec fn spec_route_matches(m: Seq<char>, psegs: Seq<Seq<char>>, route: DynamicRoute) -> bool {
    let rsegs = spec_segments(route.pattern@);
    &&& route.method@ == m
    &&& rsegs.len() == psegs.len()
    &&& forall|i: int| 0 <= i < rsegs.len() ==> spec_seg_matches(#[trigger] rsegs[i], psegs[i])
}

/// The parameters a matching route binds: for each placeholder segment, in
/// order, its name paired with the path segment.
pub open spec fn spec_route_params(rsegs: Seq<Seq<char>>, psegs: Seq<Seq<char>>) -> Seq<
    (Seq<char>, Seq<char>),
>
    decreases rsegs.len(),
{
    if rsegs.len() == 0 || psegs.len() == 0 {
        Seq::empty()
    } else {
        spec_route_params(rsegs.drop_last(), psegs.drop_last()) + (if seg_is_placeholder(
            rsegs.last(),
        ) {
            seq![(spec_ph_name(rsegs.last()), psegs.last())]
        } else {
            Seq::empty()
        })
    }
}

/// What dynamic matching yields: the first route, in declaration order, that
/// accepts the request, with its action name and bound parameters.
pub open spec fn spec_match_dynamic(m: Seq<char>, p: Seq<char>, routes: Seq<DynamicRoute>) -> Option<
    (Seq<char>, Seq<(Seq<char>, Seq<char>)>),
>
    decreases routes.len(),
{
    let psegs = spec_segments(p);
    if routes.len() == 0 {
        None
    } else if spec_route_matches(m, psegs, routes[0]) {
        Some(
            (routes[0].action@, spec_route_params(spec_segments(routes[0].pattern@), psegs)),
        )
    } else {
        spec_match_dynamic(m, p, routes.skip(1))
    }
}

/// The views of a list of string pairs.
pub open spec fn pair_views(ps: Seq<(String, String)>) -> Seq<(Seq<char>, Seq<char>)> {
    ps.map_values(|p: (String, String)| (p.0@, p.1@))
}

/// Decide whether one pattern segment accepts one path segment.
#[verifier::loop_isolation(false)]
fn seg_matches(pat: &Vec<char>, val: &Vec<char>) -> (r: bool)
    ensures
        r == spec_seg_matches(pat@, val@),
{
    if pat.len() == 0 || pat[0] != ':' {
        return eq_chars(pat, val);
    }
    let ty = placeholder_type(pat);
    let number_name: Vec<char> = vec!['n', 'u', 'm', 'b', 'e', 'r'];
    let string_name: Vec<char> = vec!['s', 't', 'r', 'i', 'n', 'g'];
    assert(number_name@ =~= number_type_name());
    assert(string_name@ =~= string_type_name());
    if eq_chars(&ty, &number_name) {
        is_lexical_i64(val)
    } else if eq_chars(&ty, &string_name) {
        val.len() > 0
    } else {
        false
    }
}

/// The declared type of a placeholder segment.
#[verifier::loop_isolation(false)]
fn placeholder_type(pat: &Vec<char>) -> (r: Vec<char>)
    requires
        seg_is_placeholder(pat@),
    ensures
        r@ == spec_ph_type(pat@),
{
    let ghost inner = pat@.skip(1);
    let mut k: usize = 1;
    proof {
        lemma_find(inner, '<');
    }
    while k < pat.len() && pat[k] != '<'
        invariant
            1 <= k <= pat.len(),
            forall|j: int| 0 <= j < k - 1 ==> inner[j] != '<',
        decreases pat.len() - k,
    {
        proof {
            assert(inner[k - 1] == pat@[k as int]);
        }
        k += 1;
    }
    if k == pat.len() {
        proof {
            assert(spec_find(inner, '<') == inner.len()) by {
                if spec_find(inner, '<') < inner.len() {
                    assert(inner[spec_find(inner, '<')] == '<');
                }
            }
        }
        let string_name: Vec<char> = vec!['s', 't', 'r', 'i', 'n', 'g'];
        assert(string_name@ =~= string_type_name());
        return string_name;
    }
    proof {
        assert(inner[k - 1] == pat@[k as int]);
        assert(inner[k - 1] == '<');
        assert(spec_find(inner, '<') == k - 1) by {
            if spec_find(inner, '<') < k - 1 {
                assert(inner[spec_find(inner, '<')] == '<');
            }
        }
    }
    let raw = copy_range(pat, k + 1, pat.len());
    proof {
        assert(raw@ =~= inner.skip(k as int));
    }
    trim_end_chars(&raw, '>')
}

/// The name a placeholder segment binds.
#[verifier::loop_isolation(false)]
fn placeholder_name(pat: &Vec<char>) -> (r: Vec<char>)
    requires
        seg_is_placeholder(pat@),
    ensures
        r@ == spec_ph_name(pat@),
{
    let ghost inner = pat@.skip(1);
    let mut k: usize = 1;
    proof {
        lemma_find(inner, '<');
    }
    while k < pat.len() && pat[k] != '<'
        invariant
            1 <= k <= pat.len(),
            forall|j: int| 0 <= j < k - 1 ==> inner[j] != '<',
        decreases pat.len() - k,
    {
        proof {
            assert(inner[k - 1] == pat@[k as int]);
        }
        k += 1;
    }
    proof {
        if k == pat.len() {
            assert(spec_find(inner, '<') == inner.len()) by {
                if spec_find(inner, '<') < inner.len() {
                    assert(inner[spec_find(inner, '<')] == '<');
                }
            }
        } else {
            assert(inner[k - 1] == pat@[k as int]);
            assert(spec_find(inner, '<') == k - 1) by {
                if spec_find(inner, '<') < k - 1 {
                    assert(inner[spec_find(inner, '<')] == '<');
                }
            }
        }
    }
    let r = copy_range(pat, 1, k);
    proof {
        if k == pat.len() {
            assert(r@ =~= inner);
        } else {
            assert(r@ =~= inner.take(k - 1));
        }
    }
    r
}

/// Match one route against the request: method, segment count, and each
/// segment; collect the bound parameters.
#[verifier::loop_isolation(false)]
fn try_route(
    mcs: &Vec<char>,
    psegs: &Vec<Vec<char>>,
    route: &DynamicRoute,
) -> (r: Option<Vec<(String, String)>>)
    ensures
        match r {
            Some(params) => spec_route_matches(mcs@, views_of(psegs@), *route) && pair_views(
                params@,
            ) == spec_route_params(spec_segments(route.pattern@), views_of(psegs@)),
            None => !spec_route_matches(mcs@, views_of(psegs@), *route),
        },
{
    let rm = chars_vec(route.method.as_str());
    if !eq_chars(&rm, mcs) {
        return None;
    }
    let pat_chars = chars_vec(route.pattern.as_str());
    let trimmed = trim_chars(&pat_chars, '/');
    let rsegs = split_chars(&trimmed, '/');
    let ghost rsegv = spec_segments(route.pattern@);
    proof {
        assert(views_of(rsegs@) == rsegv);
    }
    if rsegs.len() != psegs.len() {
        return None;
    }
    let n = rsegs.len();
    let mut params: Vec<(String, String)> = Vec::new();
    let mut i: usize = 0;
    while i < n
        invariant
            0 <= i <= n,
            forall|j: int| 0 <= j < i ==> spec_seg_matches(#[trigger] rsegv[j], views_of(psegs@)[j]),
            pair_views(params@) == spec_route_params(rsegv.take(i as int), views_of(psegs@).take(i as int)),
        decreases n - i,
    {
        let pat = &rsegs[i];
        let val = &psegs[i];
        proof {
            assert(views_of(rsegs@)[i as int] == pat@);
            assert(views_of(psegs@)[i as int] == val@);
        }
        if !seg_matches(pat, val) {
            assert(!spec_seg_matches(rsegv[i as int], views_of(psegs@)[i as int]));
            return None;
        }
        if pat.len() > 0 && pat[0] == ':' {
            let name = placeholder_name(pat);
            let name_s = string_from_chars(&name);
            let val_s = string_from_chars(val);
            params.push((name_s, val_s));
        }
        proof {
            let rv = rsegv.take(i + 1);
            let pv = views_of(psegs@).take(i + 1);
            assert(rv.drop_last() =~= rsegv.take(i as int));
            assert(pv.drop_last() =~= views_of(psegs@).take(i as int));
            assert(rv.last() == rsegv[i as int]);
            assert(pv.last() == views_of(psegs@)[i as int]);
            assert(pair_views(params@) =~= spec_route_params(rv, pv));
        }
        i += 1;
    }
    proof {
        assert(rsegv.take(n as int) =~= rsegv);
        assert(views_of(psegs@).take(n as int) =~= views_of(psegs@));
    }
    Some(params)
}

/// Match a dynamic route against the request method and path. The first
/// declared route whose method and segments all match wins; its action name
/// and bound parameters are returned.
#[verifier::loop_isolation(false)]
pub fn match_dynamic_route(
    method: &str,
    path: &str,
    routes: &Vec<DynamicRoute>,
) -> (r: Option<(String, Vec<(String, String)>)>)
    ensures
        match (r, spec_match_dynamic(method@, path@, routes@)) {
            (Some((a, ps)), Some(sm)) => a@ == sm.0 && pair_views(ps@) == sm.1,
            (None, None) => true,
            _ => false,
        },
{
    let mcs = chars_vec(method);
    let pcs = chars_vec(path);
    let trimmed = trim_chars(&pcs, '/');
    let psegs = split_chars(&trimmed, '/');
    proof {
        assert(views_of(psegs@) == spec_segments(path@));
        assert(routes@.skip(0) =~= routes@);
    }
    let mut i: usize = 0;
    while i < routes.len()
        invariant
            0 <= i <= routes.len(),
            spec_match_dynamic(method@, path@, routes@) == spec_match_dynamic(
                method@,
                path@,
                routes@.skip(i as int),
            ),
        decreases routes.len() - i,
    {
        proof {
            assert(routes@.skip(i as int)[0] == routes@[i as int]);
            assert(routes@.skip(i as int).skip(1) =~= routes@.skip(i + 1));
        }
        match try_route(&mcs, &psegs, &routes[i]) {
            Some(params) => {
                let action = string_from_chars(&chars_vec(routes[i].action.as_str()));
                return Some((action, params));
            },
            None => {},
        }
        i += 1;
    }
    proof {
        assert(routes@.skip(routes@.len() as int) =~= Seq::<DynamicRoute>::empty());
    }
    None
}

/// The first candidate directory that exists, given the candidate list and
/// which of them exist.
pub open spec fn spec_first_existing(cands: Seq<String>, exists: Seq<bool>) -> Option<int>
    decreases cands.len(),
{
    if cands.len() == 0 {
        None
    } else if exists[0] {
        Some(0)
    } else {
        match spec_first_existing(cands.skip(1), exists.skip(1)) {
            Some(k) => Some(k + 1),
            None => None,
        }
    }
}

/// The conventional directories that may hold compiled action files, in
/// the order they are probed.
pub fn actions_dir_candidates(project_root: &str) -> (r: Vec<String>)
    ensures
        r@.len() == 7,
        r@[0]@ == project_root@ + "/server/src/actions"@,
        r@[1]@ == project_root@ + "/server/actions"@,
        r@[2]@ == project_root@ + "/app/actions"@,
        r@[3]@ == project_root@ + "/actions"@,
        r@[4]@ == project_root@ + "/../server/actions"@,
        r@[5]@ == "/app/actions"@,
        r@[6]@ == "actions"@,
{
    let mut out: Vec<String> = Vec::new();
    let mut c0 = String::from_str(project_root);
    c0.append("/server/src/actions");
    out.push(c0);
    let mut c1 = String::from_str(project_root);
    c1.append("/server/actions");
    out.push(c1);
    let mut c2 = String::from_str(project_root);
    c2.append("/app/actions");
    out.push(c2);
    let mut c3 = String::from_str(project_root);
    c3.append("/actions");
    out.push(c3);
    let mut c4 = String::from_str(project_root);
    c4.append("/../server/actions");
    out.push(c4);
    out.push(String::from_str("/app/actions"));
    out.push(String::from_str("actions"));
    out
}

/// Pick the actions directory: the first candidate that exists, given the
/// probe results the caller made for each candidate.
pub fn find_actions_dir(candidates: &Vec<String>, exists: &Vec<bool>) -> (r: Option<String>)
    requires
        candidates@.len() == exists@.len(),
    ensures
        match (r, spec_first_existing(candidates@, exists@)) {
            (Some(s), Some(k)) => s == candidates@[k],
            (None, None) => true,
            _ => false,
        },
{
    let ghost whole_c = candidates@;
    let ghost whole_e = exists@;
    proof {
        assert(candidates@.skip(0) =~= candidates@);
        assert(exists@.skip(0) =~= exists@);
    }
    let mut i: usize = 0;
    while i < candidates.len()
        invariant
            0 <= i <= candidates@.len(),
            candidates@.len() == exists@.len(),
            spec_first_existing(candidates@, exists@) == (match spec_first_existing(
                candidates@.skip(i as int),
                exists@.skip(i as int),
            ) {
                Some(k) => Some(k + i),
                None => None::<int>,
            }),
        decreases candidates.len() - i,
    {
        proof {
            assert(candidates@.skip(i as int)[0] == candidates@[i as int]);
            assert(exists@.skip(i as int)[0] == exists@[i as int]);
            assert(candidates@.skip(i as int).skip(1) =~= candidates@.skip(i + 1));
            assert(exists@.skip(i as int).skip(1) =~= exists@.skip(i + 1));
        }
        if exists[i] {
            return Some(candidates[i].clone());
        }
        i += 1;
    }
    proof {
        assert(candidates@.skip(candidates@.len() as int) =~= Seq::<String>::empty());
    }
    None
}

/// The action name an action file name denotes: its stem, when its
/// extension is `js` or `jsbundle` and the stem is not empty.
pub open spec fn spec_action_stem(name: Seq<char>) -> Option<Seq<char>> {
    let k = spec_rfind(name, '.');
    if k >= 1 && (name.skip(k + 1) == seq!['j', 's'] || name.skip(k + 1) == seq![
        'j',
        's',
        'b',
        'u',
        'n',
        'd',
        'l',
        'e',
    ]) {
        Some(name.take(k))
    } else {
        None
    }
}

/// The action name a file name denotes, if any.
pub fn action_file_stem(name: &str) -> (r: Option<String>)
    ensures
        match (r, spec_action_stem(name@)) {
            (Some(s), Some(t)) => s@ == t,
            (None, None) => true,
            _ => false,
        },
{
    let cs = chars_vec(name);
    match rfind_char(&cs, '.') {
        Some(k) => {
            if k < 1 {
                return None;
            }
            let ext = copy_range(&cs, k + 1, cs.len());
            proof {
                assert(ext@ =~= name@.skip(k + 1));
            }
            let js: Vec<char> = vec!['j', 's'];
            let jsbundle: Vec<char> = vec!['j', 's', 'b', 'u', 'n', 'd', 'l', 'e'];
            assert(js@ =~= seq!['j', 's']);
            assert(jsbundle@ =~= seq!['j', 's', 'b', 'u', 'n', 'd', 'l', 'e']);
            if eq_chars(&ext, &js) || eq_chars(&ext, &jsbundle) {
                let stem = copy_range(&cs, 0, k);
                proof {
                    assert(stem@ =~= name@.take(k as int));
                }
                Some(string_from_chars(&stem))
            } else {
                None
            }
        },
        None => None,
    }
}

} // verus!
