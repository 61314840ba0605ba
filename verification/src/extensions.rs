//! Native extension registry and the shared key/value context.
//!
//! Extension manifests are discovered and their libraries loaded by the
//! caller, which resolves each declared symbol and hands in plain values:
//! the module name, its script source, and for each function the resolved
//! symbol address and declared signature. What the registry makes of them
//! is verified here: signature parsing, index assignment, and the
//! per-module function map.

use vstd::prelude::*;

use crate::json::{JsonValue, JsonVal, jv, jv_members, jv_members_get, members_set};
use crate::strutil::{chars_vec, str_eq, eq_chars};

verus! {

/// A native parameter type.
#[derive(Clone, Copy, PartialEq, Eq, Structural, Debug)]
pub enum ParamType {
    Text,
    F64,
    Flag,
    Json,
    Buffer,
}

/// A native result type.
#[derive(Clone, Copy, PartialEq, Eq, Structural, Debug)]
pub enum ReturnType {
    Text,
    F64,
    Flag,
    Json,
    Buffer,
    Void,
}

/// A native function's declared signature.
pub struct Signature {
    pub params: Vec<ParamType>,
    pub ret: ReturnType,
}

/// One resolved native function: its symbol address and signature.
pub struct NativeFnEntry {
    pub symbol_ptr: usize,
    pub sig: Signature,
}

/// One extension module: its name, its script source, and the map from
/// function name to index in the global native table.
pub struct ModuleDef {
    pub name: String,
    pub js: String,
    pub native_indices: Vec<(String, usize)>,
}

/// The loaded extensions: the modules and the global native table.
pub struct Registry {
    pub modules: Vec<ModuleDef>,
    pub natives: Vec<NativeFnEntry>,
}

/// What a manifest declares for one native function, with the symbol
/// already resolved by the caller (`None` when resolution failed).
pub struct NativeFuncDecl {
    pub name: String,
    pub symbol_ptr: Option<usize>,
    pub parameters: Vec<String>,
    pub result: String,
}

/// One discovered manifest, its script read and its symbols resolved.
pub struct ManifestInput {
    pub name: String,
    pub js: String,
    pub functions: Vec<NativeFuncDecl>,
}

/// The parameter type a manifest name denotes; an unknown name is `json`.
pub open spec fn spec_parse_type(s: Seq<char>) -> ParamType {
    if s == "string"@ {
        ParamType::Text
    } else if s == "f64"@ {
        ParamType::F64
    } else if s == "bool"@ {
        ParamType::Flag
    } else if s == "json"@ {
        ParamType::Json
    } else if s == "buffer"@ {
        ParamType::Buffer
    } else {
        ParamType::Json
    }
}

/// The result type a manifest name denotes; an unknown name is `void`.
pub open spec fn spec_parse_return(s: Seq<char>) -> ReturnType {
    if s == "string"@ {
        ReturnType::Text
    } else if s == "f64"@ {
        ReturnType::F64
    } else if s == "bool"@ {
        ReturnType::Flag
    } else if s == "json"@ {
        ReturnType::Json
    } else if s == "buffer"@ {
        ReturnType::Buffer
    } else if s == "void"@ {
        ReturnType::Void
    } else {
        ReturnType::Void
    }
}

/// Parse a manifest parameter type name.
pub fn parse_type(s: &str) -> (r: ParamType)
    ensures
        r == spec_parse_type(s@),
{
    if str_eq(s, "string") {
        ParamType::Text
    } else if str_eq(s, "f64") {
        ParamType::F64
    } else if str_eq(s, "bool") {
        ParamType::Flag
    } else if str_eq(s, "json") {
        ParamType::Json
    } else if str_eq(s, "buffer") {
        ParamType::Buffer
    } else {
        ParamType::Json
    }
}

/// Parse a manifest result type name.
pub fn parse_return(s: &str) -> (r: ReturnType)
    ensures
        r == spec_parse_return(s@),
{
    if str_eq(s, "string") {
        ReturnType::Text
    } else if str_eq(s, "f64") {
        ReturnType::F64
    } else if str_eq(s, "bool") {
        ReturnType::Flag
    } else if str_eq(s, "json") {
        ReturnType::Json
    } else if str_eq(s, "buffer") {
        ReturnType::Buffer
    } else {
        ReturnType::Void
    }
}

/// The parameter types of a declared parameter list.
pub open spec fn spec_parse_types(ps: Seq<String>) -> Seq<ParamType>
    decreases ps,
{
    if ps.len() == 0 {
        Seq::empty()
    } else {
        spec_parse_types(ps.drop_last()).push(spec_parse_type(ps.last()@))
    }
}

/// The model of one native table entry.
pub ghost struct NativeVal {
    pub symbol_ptr: usize,
    pub params: Seq<ParamType>,
    pub ret: ReturnType,
}

/// The model of the native table.
pub open spec fn native_views(es: Seq<NativeFnEntry>) -> Seq<NativeVal>
    decreases es,
{
    if es.len() == 0 {
        Seq::empty()
    } else {
        native_views(es.drop_last()).push(
            NativeVal {
                symbol_ptr: es.last().symbol_ptr,
                params: es.last().sig.params@,
                ret: es.last().sig.ret,
            },
        )
    }
}

pub broadcast proof fn lemma_native_views_len(es: Seq<NativeFnEntry>)
    ensures
        (#[trigger] native_views(es)).len() == es.len(),
    decreases es.len(),
{
    if es.len() > 0 {
        lemma_native_views_len(es.drop_last());
    }
}

/// The native entries one manifest contributes: for each declared function
/// whose symbol resolved, in order, its address and parsed signature.
pub open spec fn spec_module_entries(fs: Seq<NativeFuncDecl>) -> Seq<NativeVal>
    decreases fs,
{
    if fs.len() == 0 {
        Seq::empty()
    } else {
        spec_module_entries(fs.drop_last()) + (match fs.last().symbol_ptr {
            Some(p) => seq![
                NativeVal {
                    symbol_ptr: p,
                    params: spec_parse_types(fs.last().parameters@),
                    ret: spec_parse_return(fs.last().result@),
                },
            ],
            None => Seq::empty(),
        })
    }
}

/// The function map one manifest contributes, with its entries placed from
/// `base` onward: each resolved function's name paired with its index into
/// the global native table.
pub open spec fn spec_module_indices(fs: Seq<NativeFuncDecl>, base: int) -> Seq<(Seq<char>, int)>
    decreases fs,
{
    if fs.len() == 0 {
        Seq::empty()
    } else {
        let rest = spec_module_indices(fs.drop_last(), base);
        match fs.last().symbol_ptr {
            Some(_) => rest.push((fs.last().name@, base + rest.len())),
            None => rest,
        }
    }
}

proof fn lemma_module_counts(fs: Seq<NativeFuncDecl>, base: int)
    ensures
        spec_module_indices(fs, base).len() == spec_module_entries(fs).len(),
    decreases fs.len(),
{
    if fs.len() > 0 {
        lemma_module_counts(fs.drop_last(), base);
    }
}

/// The views of a module's function map.
pub open spec fn index_views(ps: Seq<(String, usize)>) -> Seq<(Seq<char>, int)>
    decreases ps,
{
    if ps.len() == 0 {
        Seq::empty()
    } else {
        index_views(ps.drop_last()).push((ps.last().0@, ps.last().1 as int))
    }
}

/// Register one manifest: parse each resolved function's signature, append
/// it to the global native table, and record the module's name map.
#[verifier::loop_isolation(false)]
pub fn register_module(natives: &mut Vec<NativeFnEntry>, m: &ManifestInput) -> (md: ModuleDef)
    requires
        old(natives)@.len() + m.functions@.len() <= usize::MAX,
    ensures
        md.name == m.name,
        md.js == m.js,
        native_views(final(natives)@) == native_views(old(natives)@) + spec_module_entries(
            m.functions@,
        ),
        index_views(md.native_indices@) == spec_module_indices(
            m.functions@,
            old(natives)@.len() as int,
        ),
{
    broadcast use lemma_native_views_len;

    let ghost base = natives@.len() as int;
    let mut indices: Vec<(String, usize)> = Vec::new();
    let mut i: usize = 0;
    proof {
        assert(m.functions@.take(0) =~= Seq::<NativeFuncDecl>::empty());
        assert(index_views(indices@) =~= Seq::<(Seq<char>, int)>::empty());
        assert(native_views(natives@) =~= native_views(natives@) + spec_module_entries(
            m.functions@.take(0),
        ));
    }
    while i < m.functions.len()
        invariant
            0 <= i <= m.functions@.len(),
            natives@.len() == old(natives)@.len() + spec_module_entries(
                m.functions@.take(i as int),
            ).len(),
            natives@.len() <= old(natives)@.len() + i,
            native_views(natives@) == native_views(old(natives)@) + spec_module_entries(
                m.functions@.take(i as int),
            ),
            index_views(indices@) == spec_module_indices(m.functions@.take(i as int), base),
        decreases m.functions.len() - i,
    {
        proof {
            assert(m.functions@.take(i + 1).drop_last() =~= m.functions@.take(i as int));
            assert(m.functions@.take(i + 1).last() == m.functions@[i as int]);
            lemma_module_counts(m.functions@.take(i as int), base);
        }
        let f = &m.functions[i];
        match f.symbol_ptr {
            Some(ptr) => {
                let mut params: Vec<ParamType> = Vec::new();
                let mut j: usize = 0;
                proof {
                    assert(f.parameters@.take(0) =~= Seq::<String>::empty());
                    assert(params@ =~= spec_parse_types(f.parameters@.take(0)));
                }
                while j < f.parameters.len()
                    invariant
                        0 <= j <= f.parameters@.len(),
                        params@ == spec_parse_types(f.parameters@.take(j as int)),
                    decreases f.parameters.len() - j,
                {
                    proof {
                        assert(f.parameters@.take(j + 1).drop_last() =~= f.parameters@.take(
                            j as int,
                        ));
                        assert(f.parameters@.take(j + 1).last() == f.parameters@[j as int]);
                    }
                    let t = parse_type(f.parameters[j].as_str());
                    params.push(t);
                    proof {
                        assert(params@ =~= spec_parse_types(f.parameters@.take(j + 1)));
                    }
                    j += 1;
                }
                proof {
                    assert(f.parameters@.take(f.parameters@.len() as int) =~= f.parameters@);
                }
                let ret = parse_return(f.result.as_str());
                let idx = natives.len();
                let ghost prior_natives = natives@;
                let ghost prior_indices = indices@;
                natives.push(NativeFnEntry { symbol_ptr: ptr, sig: Signature { params, ret } });
                indices.push((f.name.clone(), idx));
                proof {
                    assert(natives@.drop_last() =~= prior_natives);
                    assert(indices@.drop_last() =~= prior_indices);
                    assert(native_views(natives@) =~= native_views(old(natives)@)
                        + spec_module_entries(m.functions@.take(i + 1)));
                    lemma_module_counts(m.functions@.take(i + 1), base);
                    assert(index_views(indices@) =~= spec_module_indices(
                        m.functions@.take(i + 1),
                        base,
                    ));
                }
            },
            None => {
                proof {
                    assert(native_views(natives@) =~= native_views(old(natives)@)
                        + spec_module_entries(m.functions@.take(i + 1)));
                    assert(index_views(indices@) =~= spec_module_indices(
                        m.functions@.take(i + 1),
                        base,
                    ));
                }
            },
        }
        i += 1;
    }
    proof {
        assert(m.functions@.take(m.functions@.len() as int) =~= m.functions@);
    }
    ModuleDef { name: clone_string(&m.name), js: clone_string(&m.js), native_indices: indices }
}

fn clone_string(s: &String) -> (r: String)
    ensures
        r == *s,
{
    s.clone()
}

/// The native entries of all manifests, flattened in manifest order.
pub open spec fn spec_flat_natives(ms: Seq<ManifestInput>) -> Seq<NativeVal>
    decreases ms,
{
    if ms.len() == 0 {
        Seq::empty()
    } else {
        spec_flat_natives(ms.drop_last()) + spec_module_entries(ms.last().functions@)
    }
}

/// The number of functions all manifests declare.
pub open spec fn spec_total_decls(ms: Seq<ManifestInput>) -> int
    decreases ms,
{
    if ms.len() == 0 {
        0
    } else {
        spec_total_decls(ms.drop_last()) + ms.last().functions@.len()
    }
}

proof fn lemma_entries_bounded(fs: Seq<NativeFuncDecl>)
    ensures
        spec_module_entries(fs).len() <= fs.len(),
    decreases fs.len(),
{
    if fs.len() > 0 {
        lemma_entries_bounded(fs.drop_last());
    }
}

proof fn lemma_flat_bounded(ms: Seq<ManifestInput>)
    ensures
        0 <= spec_flat_natives(ms).len() <= spec_total_decls(ms),
    decreases ms.len(),
{
    if ms.len() > 0 {
        lemma_flat_bounded(ms.drop_last());
        lemma_entries_bounded(ms.last().functions@);
    }
}

proof fn lemma_total_monotonic(ms: Seq<ManifestInput>, i: int)
    requires
        0 <= i <= ms.len(),
    ensures
        spec_total_decls(ms.take(i)) + (if i < ms.len() {
            ms[i].functions@.len() as int
        } else {
            0
        }) <= spec_total_decls(ms),
    decreases ms.len() - i,
{
    if i < ms.len() {
        assert(ms.take(i + 1).drop_last() =~= ms.take(i));
        assert(ms.take(i + 1).last() == ms[i]);
        lemma_total_monotonic(ms, i + 1);
    } else {
        assert(ms.take(i) =~= ms);
    }
}

/// Load the project's extensions from discovered manifests: every manifest
/// becomes a module, and every resolved native function gets the next index
/// in the global native table, in manifest order.
#[verifier::loop_isolation(false)]
pub fn load_project_extensions(manifests: Vec<ManifestInput>) -> (r: Registry)
    requires
        spec_total_decls(manifests@) <= usize::MAX,
    ensures
        native_views(r.natives@) == spec_flat_natives(manifests@),
        r.modules@.len() == manifests@.len(),
        forall|j: int|
            0 <= j < manifests@.len() ==> (#[trigger] r.modules@[j]).name == manifests@[j].name
                && r.modules@[j].js == manifests@[j].js && index_views(
                r.modules@[j].native_indices@,
            ) == spec_module_indices(
                manifests@[j].functions@,
                spec_flat_natives(manifests@.take(j)).len() as int,
            ),
{
    broadcast use lemma_native_views_len;

    let mut natives: Vec<NativeFnEntry> = Vec::new();
    let mut modules: Vec<ModuleDef> = Vec::new();
    let mut i: usize = 0;
    proof {
        assert(manifests@.take(0) =~= Seq::<ManifestInput>::empty());
        assert(native_views(natives@) =~= spec_flat_natives(manifests@.take(0)));
    }
    while i < manifests.len()
        invariant
            0 <= i <= manifests@.len(),
            modules@.len() == i,
            native_views(natives@) == spec_flat_natives(manifests@.take(i as int)),
            forall|j: int|
                0 <= j < i ==> (#[trigger] modules@[j]).name == manifests@[j].name
                    && modules@[j].js == manifests@[j].js && index_views(
                    modules@[j].native_indices@,
                ) == spec_module_indices(
                    manifests@[j].functions@,
                    spec_flat_natives(manifests@.take(j)).len() as int,
                ),
        decreases manifests.len() - i,
    {
        proof {
            assert(manifests@.take(i + 1).drop_last() =~= manifests@.take(i as int));
            assert(manifests@.take(i + 1).last() == manifests@[i as int]);
            lemma_flat_bounded(manifests@.take(i as int));
            lemma_total_monotonic(manifests@, i as int);
        }
        let m = &manifests[i];
        let md = register_module(&mut natives, m);
        modules.push(md);
        proof {
            assert(native_views(natives@) =~= spec_flat_natives(manifests@.take(i + 1)));
        }
        i += 1;
    }
    proof {
        assert(manifests@.take(manifests@.len() as int) =~= manifests@);
    }
    Registry { modules, natives }
}

/// The script source of the thin wrapper bound at `t.<module>.<fn>`: it
/// forwards its arguments to the native invocation hook with the function's
/// registry index.
pub fn native_wrapper_source(idx: usize) -> (r: String)
    ensures
        r@ == "(function(...args) { return __titan_invoke_native("@
            + crate::strutil::spec_u64_digits(idx as nat) + ", args); })"@,
{
    let mut out = String::from_str("(function(...args) { return __titan_invoke_native(");
    let n = crate::strutil::u64_to_string(idx as u64);
    out.append(n.as_str());
    out.append(", args); })");
    out
}

/// The shared key/value context, as one writer sees it: an ordered list of
/// bindings where setting an existing key replaces its value in place.
/// Concurrent access wraps this store; readers observe the last write per
/// key.
pub struct ShareContextStore {
    entries: Vec<(String, JsonValue)>,
}

impl ShareContextStore {
    /// The bindings, by key.
    pub closed spec fn contents(&self) -> Seq<(Seq<char>, JsonVal)> {
        jv_members(self.entries@)
    }

    /// An empty context.
    pub fn new() -> (r: ShareContextStore)
        ensures
            r.contents() == Seq::<(Seq<char>, JsonVal)>::empty(),
    {
        let r = ShareContextStore { entries: Vec::new() };
        proof {
            assert(jv_members(r.entries@) =~= Seq::<(Seq<char>, JsonVal)>::empty());
        }
        r
    }

    /// The value bound to `key`, if any.
    pub fn get(&self, key: &str) -> (r: Option<&JsonValue>)
        ensures
            match r {
                Some(v) => jv_members_get(self.contents(), key@) == Some(jv(*v)),
                None => jv_members_get(self.contents(), key@) is None,
            },
    {
        share_lookup(&self.entries, key)
    }

    /// Bind `key` to `value`, replacing any existing binding in place.
    pub fn set(&mut self, key: String, value: JsonValue)
        ensures
            final(self).contents() == crate::json::jv_members_set(
                old(self).contents(),
                key@,
                jv(value),
            ),
    {
        members_set(&mut self.entries, key, value);
    }

    /// Remove the binding of `key`, if any.
    #[verifier::loop_isolation(false)]
    pub fn delete(&mut self, key: &str)
        ensures
            final(self).contents() == spec_members_del(old(self).contents(), key@),
    {
        broadcast use crate::json::lemma_jv_members_len, crate::json::lemma_jv_members_index;

        let kc = chars_vec(key);
        let ghost mps = jv_members(self.entries@);
        let mut i: usize = 0;
        while i < self.entries.len()
            invariant
                0 <= i <= self.entries@.len(),
                kc@ == key@,
                self.entries@ == old(self).entries@,
                mps == jv_members(self.entries@),
                forall|j: int| 0 <= j < i ==> #[trigger] mps[j].0 != key@,
            decreases self.entries.len() - i,
        {
            let pc = chars_vec(self.entries[i].0.as_str());
            if eq_chars(&pc, &kc) {
                proof {
                    assert(mps[i as int].0 == key@);
                }
                self.entries.remove(i);
                proof {
                    lemma_del_removes_at(mps, i as int, key@);
                    assert(jv_members(self.entries@) =~= mps.remove(i as int));
                }
                return ;
            }
            proof {
                assert(mps[i as int].0 == self.entries@[i as int].0@);
            }
            i += 1;
        }
        proof {
            lemma_del_absent(mps, key@);
        }
    }

    /// The keys of every binding, in order.
    #[verifier::loop_isolation(false)]
    pub fn keys(&self) -> (r: Vec<String>)
        ensures
            r@.len() == self.contents().len(),
            forall|j: int|
                0 <= j < r@.len() ==> (#[trigger] r@[j])@ == self.contents()[j].0,
    {
        broadcast use crate::json::lemma_jv_members_len, crate::json::lemma_jv_members_index;

        let mut out: Vec<String> = Vec::new();
        let mut i: usize = 0;
        while i < self.entries.len()
            invariant
                0 <= i <= self.entries@.len(),
                out@.len() == i,
                forall|j: int|
                    0 <= j < i ==> (#[trigger] out@[j])@ == jv_members(self.entries@)[j].0,
            decreases self.entries.len() - i,
        {
            out.push(self.entries[i].0.clone());
            i += 1;
        }
        out
    }
}

#[verifier::loop_isolation(false)]
fn share_lookup<'a>(entries: &'a Vec<(String, JsonValue)>, key: &str) -> (r: Option<
    &'a JsonValue,
>)
    ensures
        match r {
            Some(v) => jv_members_get(jv_members(entries@), key@) == Some(jv(*v)),
            None => jv_members_get(jv_members(entries@), key@) is None,
        },
{
    broadcast use crate::json::lemma_jv_members_len, crate::json::lemma_jv_members_index;

    let ghost mps = jv_members(entries@);
    let kc = chars_vec(key);
    proof {
        assert(mps.skip(0) =~= mps);
    }
    let mut i: usize = 0;
    while i < entries.len()
        invariant
            0 <= i <= entries@.len(),
            kc@ == key@,
            jv_members_get(mps, key@) == jv_members_get(mps.skip(i as int), key@),
        decreases entries.len() - i,
    {
        proof {
            assert(mps.skip(i as int)[0] == mps[i as int]);
            assert(mps.skip(i as int).skip(1) =~= mps.skip(i + 1));
        }
        let pc = chars_vec(entries[i].0.as_str());
        if eq_chars(&pc, &kc) {
            proof {
                assert(jv_members_get(mps.skip(i as int), key@) == Some(mps[i as int].1));
            }
            return Some(&entries[i].1);
        }
        i += 1;
    }
    proof {
        assert(mps.skip(mps.len() as int) =~= Seq::<(Seq<char>, JsonVal)>::empty());
    }
    None
}

/// Bindings after removing the first binding of `key`.
pub open spec fn spec_members_del(ps: Seq<(Seq<char>, JsonVal)>, key: Seq<char>) -> Seq<
    (Seq<char>, JsonVal),
>
    decreases ps.len(),
{
    if ps.len() == 0 {
        ps
    } else if ps[0].0 == key {
        ps.skip(1)
    } else {
        seq![ps[0]] + spec_members_del(ps.skip(1), key)
    }
}

proof fn lemma_del_removes_at(mps: Seq<(Seq<char>, JsonVal)>, i: int, key: Seq<char>)
    requires
        0 <= i < mps.len(),
        mps[i].0 == key,
        forall|j: int| 0 <= j < i ==> #[trigger] mps[j].0 != key,
    ensures
        spec_members_del(mps, key) =~= mps.remove(i),
    decreases i,
{
    if i == 0 {
        assert(spec_members_del(mps, key) =~= mps.remove(0));
    } else {
        let tail = mps.skip(1);
        assert(tail[i - 1] == mps[i]);
        assert forall|j: int| 0 <= j < i - 1 implies #[trigger] tail[j].0 != key by {
            assert(tail[j] == mps[j + 1]);
        }
        lemma_del_removes_at(tail, i - 1, key);
        assert(spec_members_del(mps, key) =~= seq![mps[0]] + tail.remove(i - 1));
        assert(seq![mps[0]] + tail.remove(i - 1) =~= mps.remove(i));
    }
}

proof fn lemma_del_absent(mps: Seq<(Seq<char>, JsonVal)>, key: Seq<char>)
    requires
        forall|j: int| 0 <= j < mps.len() ==> #[trigger] mps[j].0 != key,
    ensures
        spec_members_del(mps, key) =~= mps,
    decreases mps.len(),
{
    if mps.len() > 0 {
        let tail = mps.skip(1);
        assert forall|j: int| 0 <= j < tail.len() implies #[trigger] tail[j].0 != key by {
            assert(tail[j] == mps[j + 1]);
        }
        lemma_del_absent(tail, key);
        assert(seq![mps[0]] + tail =~= mps);
    }
}

/// Readers observe the last write per key: after binding `key` to `val`,
/// looking `key` up yields `val`, and every other key is bound exactly as
/// before.
pub proof fn lemma_share_context_last_write_wins(
    ps: Seq<(Seq<char>, JsonVal)>,
    key: Seq<char>,
    val: JsonVal,
)
    ensures
        jv_members_get(crate::json::jv_members_set(ps, key, val), key) == Some(val),
        forall|k2: Seq<char>|
            k2 != key ==> jv_members_get(crate::json::jv_members_set(ps, key, val), k2)
                == jv_members_get(ps, k2),
    decreases ps.len(),
{
    let set = crate::json::jv_members_set(ps, key, val);
    if ps.len() == 0 {
        assert(set =~= seq![(key, val)]);
        assert forall|k2: Seq<char>| k2 != key implies jv_members_get(set, k2) == jv_members_get(
            ps,
            k2,
        ) by {
            assert(set.skip(1) =~= Seq::<(Seq<char>, JsonVal)>::empty());
            assert(jv_members_get(set, k2) == jv_members_get(set.skip(1), k2));
            assert(jv_members_get(set.skip(1), k2) is None);
        }
    } else if ps[0].0 == key {
        assert(set =~= seq![(key, val)] + ps.skip(1));
        assert(set[0] == (key, val));
        assert forall|k2: Seq<char>| k2 != key implies jv_members_get(set, k2) == jv_members_get(
            ps,
            k2,
        ) by {
            assert(set.skip(1) =~= ps.skip(1));
            assert(jv_members_get(set, k2) == jv_members_get(set.skip(1), k2));
            assert(jv_members_get(ps, k2) == jv_members_get(ps.skip(1), k2));
        }
    } else {
        lemma_share_context_last_write_wins(ps.skip(1), key, val);
        let inner = crate::json::jv_members_set(ps.skip(1), key, val);
        assert(set =~= seq![ps[0]] + inner);
        assert(set[0] == ps[0]);
        assert(set.skip(1) =~= inner);
        assert(jv_members_get(set, key) == jv_members_get(inner, key));
        assert forall|k2: Seq<char>| k2 != key implies jv_members_get(set, k2) == jv_members_get(
            ps,
            k2,
        ) by {
            if ps[0].0 == k2 {
                assert(jv_members_get(set, k2) == Some(ps[0].1));
                assert(jv_members_get(ps, k2) == Some(ps[0].1));
            } else {
                assert(jv_members_get(set, k2) == jv_members_get(inner, k2));
                assert(jv_members_get(ps, k2) == jv_members_get(ps.skip(1), k2));
            }
        }
    }
}

} // verus!
