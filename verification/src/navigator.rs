//! Schema navigator: walk a schema document along a JSON path, resolving
//! same-document `$ref` pointers, fanning out across the combinator keywords
//! `allOf`, `anyOf` and `oneOf`, and aborting cyclic reference chains.

use vstd::prelude::*;

verus! {

use vstd::string::StrSliceExecFns;
use crate::json::JsonValue;
use crate::json::JsonMember;
use crate::json::spec_get;
use crate::json::spec_pointer;
use crate::position::PathSegment;
use crate::position::SpecSeg;
use crate::position::segs_view;

/// A reference into a JSON Schema document that supports navigation: the
/// current sub-schema together with the document root, so that `$ref`
/// pointers can be resolved.
pub struct SchemaNode<'a> {
    /// The current schema sub-object.
    pub schema: &'a JsonValue,
    /// The document root (for resolving `$ref`).
    pub root: &'a JsonValue,
}

// ────────────────────────────────────────────────────────────
// Pattern heuristic for patternProperties
// ────────────────────────────────────────────────────────────

/// The pattern without its leading carets.
pub open spec fn spec_trim_carets(p: Seq<char>) -> Seq<char>
    decreases p.len(),
{
    if p.len() > 0 && p[0] == '^' {
        spec_trim_carets(p.drop_first())
    } else {
        p
    }
}

pub open spec fn spec_starts_with(v: Seq<char>, p: Seq<char>) -> bool {
    p.len() <= v.len() && v.subrange(0, p.len() as int) == p
}

pub open spec fn spec_contains_sub(v: Seq<char>, p: Seq<char>) -> bool {
    exists|i: int| 0 <= i && i + p.len() <= v.len() && #[trigger] v.subrange(i, i + p.len()) == p
}

/// The pattern heuristic: an anchored pattern (leading `^`) asks that the
/// value start with the rest of the pattern; any other pattern is read as a
/// literal substring.
pub open spec fn spec_pattern_match(p: Seq<char>, v: Seq<char>) -> bool {
    if p.len() > 0 && p[0] == '^' {
        spec_starts_with(v, spec_trim_carets(p))
    } else {
        spec_contains_sub(v, p)
    }
}

/// First member whose key, read as a pattern, matches `key`.
pub open spec fn spec_first_pattern(ms: Seq<JsonMember>, key: Seq<char>) -> Option<JsonValue>
    decreases ms.len(),
{
    if ms.len() == 0 {
        None
    } else if spec_pattern_match(ms[0].key@, key) {
        Some(ms[0].value)
    } else {
        spec_first_pattern(ms.drop_first(), key)
    }
}

// ────────────────────────────────────────────────────────────
// Navigation, as spec functions
// ────────────────────────────────────────────────────────────

/// The local `$ref` fragment of a node: the value of a `$ref` member that is
/// a string beginning with `#`, without the `#`. Refs into other documents
/// carry no fragment here and are left unresolved.
pub open spec fn spec_ref_fragment(v: JsonValue) -> Option<Seq<char>> {
    match spec_get(v, "$ref"@) {
        Some(r) => match r {
            JsonValue::Text(s) => if s@.len() > 0 && s@[0] == '#' {
                Some(s@.drop_first())
            } else {
                None
            },
            _ => None,
        },
        None => None,
    }
}

pub open spec fn seq_contains_str(v: Seq<Seq<char>>, x: Seq<char>) -> bool {
    exists|i: int| 0 <= i < v.len() && v[i] == x
}

/// Resolve one `$ref` step: `None` aborts the branch (the fragment was
/// already visited); otherwise the node after resolution, with the fragment
/// recorded. A fragment that does not resolve leaves the node as it stands.
pub open spec fn spec_resolve_step(
    root: JsonValue,
    cur: JsonValue,
    visited: Seq<Seq<char>>,
) -> Option<(JsonValue, Seq<Seq<char>>)> {
    match spec_ref_fragment(cur) {
        Some(f) => if seq_contains_str(visited, f) {
            None
        } else {
            match spec_pointer(root, f) {
                Some(t) => Some((t, visited.push(f))),
                None => Some((cur, visited)),
            }
        },
        None => Some((cur, visited)),
    }
}

/// Dispatch of one path segment on a node, without combinators: `properties`,
/// then `patternProperties`, then an object-valued `additionalProperties` for
/// a key; `items` (object form, then tuple form), then `prefixItems` for an
/// index.
pub open spec fn spec_try_segment(v: JsonValue, seg: SpecSeg) -> Option<JsonValue> {
    match seg {
        SpecSeg::Key(key) => match spec_get(v, "properties"@) {
            Some(props) => match spec_get(props, key) {
                Some(p) => Some(p),
                None => spec_try_key_fallback(v, key),
            },
            None => spec_try_key_fallback(v, key),
        },
        SpecSeg::Index(i) => match spec_get(v, "items"@) {
            Some(items) => if items is Object {
                Some(items)
            } else {
                match items {
                    JsonValue::Array(xs) => if i < xs@.len() {
                        Some(xs@[i])
                    } else {
                        spec_try_prefix_items(v, i)
                    },
                    _ => spec_try_prefix_items(v, i),
                }
            },
            None => spec_try_prefix_items(v, i),
        },
    }
}

pub open spec fn spec_try_key_fallback(v: JsonValue, key: Seq<char>) -> Option<JsonValue> {
    match spec_get(v, "patternProperties"@) {
        Some(pp) => match pp {
            JsonValue::Object(ms) => match spec_first_pattern(ms@, key) {
                Some(x) => Some(x),
                None => spec_try_additional(v),
            },
            _ => spec_try_additional(v),
        },
        None => spec_try_additional(v),
    }
}

pub open spec fn spec_try_additional(v: JsonValue) -> Option<JsonValue> {
    match spec_get(v, "additionalProperties"@) {
        Some(ap) => if ap is Object {
            Some(ap)
        } else {
            None
        },
        None => None,
    }
}

pub open spec fn spec_try_prefix_items(v: JsonValue, i: int) -> Option<JsonValue> {
    match spec_get(v, "prefixItems"@) {
        Some(pi) => match pi {
            JsonValue::Array(xs) => if i < xs@.len() {
                Some(xs@[i])
            } else {
                None
            },
            _ => None,
        },
        None => None,
    }
}

/// Walk a schema along `path`: resolve one `$ref`, then dispatch the next
/// segment directly, or fan out across `allOf`, `anyOf`, `oneOf` with the
/// whole remaining path; the first branch that succeeds wins. The fuel bounds
/// the walk; the visited fragments abort cyclic reference chains.
pub open spec fn spec_navigate_inner(
    root: JsonValue,
    cur: JsonValue,
    path: Seq<SpecSeg>,
    visited: Seq<Seq<char>>,
    fuel: nat,
) -> Option<JsonValue>
    decreases fuel, 2int, 0int,
{
    if fuel == 0 {
        None
    } else {
        match spec_resolve_step(root, cur, visited) {
            None => None,
            Some(rv) => {
                let cur2 = rv.0;
                let vis2 = rv.1;
                if path.len() == 0 {
                    Some(cur2)
                } else {
                    match spec_try_segment(cur2, path[0]) {
                        Some(child) => spec_navigate_inner(
                            root,
                            child,
                            path.drop_first(),
                            vis2,
                            (fuel - 1) as nat,
                        ),
                        None => spec_nav_combo(root, cur2, path, vis2, (fuel - 1) as nat),
                    }
                }
            },
        }
    }
}

/// Fan out across the three combinator keyword arrays, in order.
pub open spec fn spec_nav_combo(
    root: JsonValue,
    cur: JsonValue,
    path: Seq<SpecSeg>,
    visited: Seq<Seq<char>>,
    fuel: nat,
) -> Option<JsonValue>
    decreases fuel, 2int, 0int,
{
    let r1 = spec_nav_keyword(root, cur, "allOf"@, path, visited, fuel);
    if r1 is Some {
        r1
    } else {
        let r2 = spec_nav_keyword(root, cur, "anyOf"@, path, visited, fuel);
        if r2 is Some {
            r2
        } else {
            spec_nav_keyword(root, cur, "oneOf"@, path, visited, fuel)
        }
    }
}

pub open spec fn spec_nav_keyword(
    root: JsonValue,
    cur: JsonValue,
    kw: Seq<char>,
    path: Seq<SpecSeg>,
    visited: Seq<Seq<char>>,
    fuel: nat,
) -> Option<JsonValue>
    decreases fuel, 1int, 0int,
{
    match spec_get(cur, kw) {
        Some(arr) => match arr {
            JsonValue::Array(xs) => spec_nav_list(root, xs@, path, visited, fuel),
            _ => None,
        },
        None => None,
    }
}

/// Try each sub-schema with the whole remaining path; first success wins.
pub open spec fn spec_nav_list(
    root: JsonValue,
    subs: Seq<JsonValue>,
    path: Seq<SpecSeg>,
    visited: Seq<Seq<char>>,
    fuel: nat,
) -> Option<JsonValue>
    decreases fuel, 0int, subs.len(),
{
    if subs.len() == 0 || fuel == 0 {
        None
    } else {
        match spec_navigate_inner(root, subs[0], path, visited, (fuel - 1) as nat) {
            Some(r) => Some(r),
            None => spec_nav_list(root, subs.drop_first(), path, visited, fuel),
        }
    }
}

// ────────────────────────────────────────────────────────────
// The navigation budget
// ────────────────────────────────────────────────────────────

/// Additions capped at a bound comfortably past any real schema.
pub open spec fn cap_add(a: int, b: int) -> int {
    if a + b > 0x100000 {
        0x100000
    } else {
        a + b
    }
}

/// Capped node count of a value.
pub open spec fn spec_size(v: JsonValue) -> int
    decreases v, 1int, 0int,
{
    match v {
        JsonValue::Array(xs) => cap_add(1, spec_size_arr(xs, 0)),
        JsonValue::Object(ms) => cap_add(1, spec_size_obj(ms, 0)),
        _ => 1,
    }
}

pub open spec fn spec_size_arr(xs: Vec<JsonValue>, i: int) -> int
    decreases xs, 0int, xs@.len() - i when 0 <= i <= xs@.len()
{
    if i >= xs@.len() {
        0
    } else {
        cap_add(spec_size(xs@[i]), spec_size_arr(xs, i + 1))
    }
}

pub open spec fn spec_size_obj(ms: Vec<JsonMember>, i: int) -> int
    decreases ms, 0int, ms@.len() - i when 0 <= i <= ms@.len()
{
    if i >= ms@.len() {
        0
    } else {
        cap_add(cap_add(1, spec_size(ms@[i].value)), spec_size_obj(ms, i + 1))
    }
}

/// The walk budget for a navigation: generous enough that only a pathological
/// schema could exhaust it, and a total function of the schema and the path
/// length, so navigation stays deterministic.
pub open spec fn spec_budget(root: JsonValue, n: int) -> nat {
    let s = spec_size(root) + 1;
    let m = if n > 0x100000 {
        0x100000
    } else if n < 0 {
        0
    } else {
        n
    };
    (s * s * (m + 1) + m + 1) as nat
}

/// The result a navigation must return: the spec walk at the stated budget.
pub open spec fn spec_navigate(root: JsonValue, start: JsonValue, path: Seq<SpecSeg>) -> Option<
    JsonValue,
> {
    spec_navigate_inner(root, start, path, Seq::<Seq<char>>::empty(), spec_budget(root, path.len() as int))
}

// ────────────────────────────────────────────────────────────
// Composition of navigation
// ────────────────────────────────────────────────────────────

/// A path whose walk from `cur` is plain: no node on the spine is a `$ref`,
/// and every segment dispatches directly (no combinator fan-out).
pub open spec fn spec_plain_ok(root: JsonValue, cur: JsonValue, path: Seq<SpecSeg>) -> bool
    decreases path.len(),
{
    spec_ref_fragment(cur) is None && (path.len() == 0 || match spec_try_segment(cur, path[0]) {
        Some(c) => spec_plain_ok(root, c, path.drop_first()),
        None => false,
    })
}

/// Where a plain walk ends.
pub open spec fn spec_plain_dest(root: JsonValue, cur: JsonValue, path: Seq<SpecSeg>) -> JsonValue
    decreases path.len(),
{
    if path.len() == 0 {
        cur
    } else {
        match spec_try_segment(cur, path[0]) {
            Some(c) => spec_plain_dest(root, c, path.drop_first()),
            None => cur,
        }
    }
}

/// On a plain path the walk ignores the visited set and succeeds at any
/// sufficient fuel, ending at the plain destination.
proof fn lemma_plain_navigate(
    root: JsonValue,
    cur: JsonValue,
    path: Seq<SpecSeg>,
    visited: Seq<Seq<char>>,
    fuel: nat,
)
    requires
        spec_plain_ok(root, cur, path),
        fuel > path.len(),
    ensures
        spec_navigate_inner(root, cur, path, visited, fuel) == Some(
            spec_plain_dest(root, cur, path),
        ),
    decreases path.len(),
{
    if path.len() > 0 {
        let c = spec_try_segment(cur, path[0])->Some_0;
        lemma_plain_navigate(root, c, path.drop_first(), visited, (fuel - 1) as nat);
    }
}

/// A plain walk over a concatenation splits into two plain walks.
proof fn lemma_plain_split(root: JsonValue, cur: JsonValue, front: Seq<SpecSeg>, back: Seq<SpecSeg>)
    requires
        spec_plain_ok(root, cur, front + back),
    ensures
        spec_plain_ok(root, cur, front),
        spec_plain_ok(root, spec_plain_dest(root, cur, front), back),
        spec_plain_dest(root, cur, front + back) == spec_plain_dest(
            root,
            spec_plain_dest(root, cur, front),
            back,
        ),
    decreases front.len(),
{
    if front.len() == 0 {
        assert(front + back =~= back);
    } else {
        assert((front + back)[0] == front[0]);
        assert((front + back).drop_first() =~= front.drop_first() + back);
        let c = spec_try_segment(cur, front[0])->Some_0;
        lemma_plain_split(root, c, front.drop_first(), back);
    }
}

/// Navigation composes over concatenated paths: on a plain walk (no `$ref`
/// on the spine, every segment dispatched directly), navigating the
/// concatenation of two paths lands on the same node as navigating the first
/// and then, from there, the second — and all three navigations succeed.
pub proof fn lemma_navigate_append(
    root: JsonValue,
    start: JsonValue,
    front: Seq<SpecSeg>,
    back: Seq<SpecSeg>,
)
    requires
        spec_plain_ok(root, start, front + back),
        front.len() + back.len() <= 0x100000,
    ensures
        spec_navigate(root, start, front) == Some(spec_plain_dest(root, start, front)),
        spec_navigate(root, spec_plain_dest(root, start, front), back) == Some(
            spec_plain_dest(root, start, front + back),
        ),
        spec_navigate(root, start, front + back) == spec_navigate(
            root,
            spec_plain_dest(root, start, front),
            back,
        ),
{
    lemma_plain_split(root, start, front, back);
    let mid = spec_plain_dest(root, start, front);
    lemma_budget_ge(root, front.len() as int);
    lemma_budget_ge(root, back.len() as int);
    lemma_budget_ge(root, (front + back).len() as int);
    lemma_plain_navigate(root, start, front, Seq::<Seq<char>>::empty(), spec_budget(root, front.len() as int));
    lemma_plain_navigate(root, mid, back, Seq::<Seq<char>>::empty(), spec_budget(root, back.len() as int));
    lemma_plain_navigate(
        root,
        start,
        front + back,
        Seq::<Seq<char>>::empty(),
        spec_budget(root, (front + back).len() as int),
    );
}

/// The budget always covers a path within the machine bound.
proof fn lemma_budget_ge(root: JsonValue, n: int)
    requires
        0 <= n <= 0x100000,
    ensures
        spec_budget(root, n) > n,
{
    lemma_size_nonneg(root);
    let s = spec_size(root) + 1;
    assert(s * s * (n + 1) >= 0) by (nonlinear_arith)
        requires
            s >= 1,
            n >= 0,
    ;
}

proof fn lemma_size_nonneg(v: JsonValue)
    ensures
        spec_size(v) >= 1,
    decreases v, 2int, 0int,
{
    match v {
        JsonValue::Array(xs) => {
            lemma_size_arr_nonneg(xs, 0);
        },
        JsonValue::Object(ms) => {
            lemma_size_obj_nonneg(ms, 0);
        },
        _ => (),
    }
}

proof fn lemma_size_arr_nonneg(xs: Vec<JsonValue>, i: int)
    requires
        0 <= i <= xs@.len(),
    ensures
        spec_size_arr(xs, i) >= 0,
    decreases xs, 1int, xs@.len() - i,
{
    if i < xs@.len() {
        lemma_size_nonneg(xs@[i]);
        lemma_size_arr_nonneg(xs, i + 1);
    }
}

proof fn lemma_size_obj_nonneg(ms: Vec<JsonMember>, i: int)
    requires
        0 <= i <= ms@.len(),
    ensures
        spec_size_obj(ms, i) >= 0,
    decreases ms, 1int, ms@.len() - i,
{
    if i < ms@.len() {
        lemma_size_nonneg(ms@[i].value);
        lemma_size_obj_nonneg(ms, i + 1);
    }
}

// ────────────────────────────────────────────────────────────
// Navigation, executable
// ────────────────────────────────────────────────────────────

pub open spec fn strs_view(v: Seq<String>) -> Seq<Seq<char>> {
    v.map_values(|s: String| s@)
}

proof fn lemma_strs_view_push(v: Seq<String>, x: String)
    ensures
        strs_view(v.push(x)) =~= strs_view(v).push(x@),
{
}

fn clone_strings(v: &Vec<String>) -> (r: Vec<String>)
    ensures
        r@ == v@,
{
    let mut r: Vec<String> = Vec::new();
    let mut i: usize = 0;
    while i < v.len()
        invariant
            i <= v@.len(),
            r@ == v@.subrange(0, i as int),
        decreases v@.len() - i,
    {
        r.push(v[i].clone());
        proof {
            assert(r@ =~= v@.subrange(0, i + 1));
        }
        i = i + 1;
    }
    proof {
        assert(r@ =~= v@);
    }
    r
}

fn contains_string(v: &Vec<String>, x: &String) -> (b: bool)
    ensures
        b == seq_contains_str(strs_view(v@), x@),
{
    let mut i: usize = 0;
    while i < v.len()
        invariant
            i <= v@.len(),
            forall|k: int| 0 <= k < i ==> strs_view(v@)[k] != x@,
        decreases v@.len() - i,
    {
        proof {
            assert(strs_view(v@)[i as int] == v@[i as int]@);
        }
        if v[i] == *x {
            return true;
        }
        i = i + 1;
    }
    false
}

/// The characters of `cs` after the first.
fn tail_chars(cs: &Vec<char>) -> (r: Vec<char>)
    requires
        cs@.len() > 0,
    ensures
        r@ == cs@.drop_first(),
{
    let mut r: Vec<char> = Vec::new();
    let mut i: usize = 1;
    while i < cs.len()
        invariant
            1 <= i <= cs@.len(),
            r@ == cs@.subrange(1, i as int),
        decreases cs@.len() - i,
    {
        r.push(cs[i]);
        proof {
            assert(r@ =~= cs@.subrange(1, i + 1));
        }
        i = i + 1;
    }
    proof {
        assert(r@ =~= cs@.drop_first());
    }
    r
}

/// The local `$ref` fragment of a node, if any.
fn ref_fragment(v: &JsonValue) -> (r: Option<String>)
    ensures
        match r {
            Some(f) => spec_ref_fragment(*v) == Some(f@),
            None => spec_ref_fragment(*v) is None,
        },
{
    match v.get("$ref") {
        Some(rv) => match rv {
            JsonValue::Text(s) => {
                let cs = crate::json::str_chars(s.as_str());
                if cs.len() > 0 && cs[0] == '#' {
                    let frag = tail_chars(&cs);
                    Some(crate::json::chars_string(&frag))
                } else {
                    None
                }
            },
            _ => None,
        },
        None => None,
    }
}

/// Minimal pattern matching for `patternProperties`: an anchored prefix or a
/// literal substring.
pub fn regex_lite_match(pattern: &str, value: &str) -> (r: Result<bool, ()>)
    ensures
        r == Result::<bool, ()>::Ok(spec_pattern_match(pattern@, value@)),
{
    let p = crate::json::str_chars(pattern);
    let v = crate::json::str_chars(value);
    if p.len() > 0 && p[0] == '^' {
        let t = trim_carets(&p);
        Ok(starts_with_chars(&v, &t))
    } else {
        Ok(contains_chars(&v, &p))
    }
}

fn trim_carets(p: &Vec<char>) -> (r: Vec<char>)
    ensures
        r@ == spec_trim_carets(p@),
{
    let mut k: usize = 0;
    proof {
        assert(p@.skip(0) =~= p@);
    }
    while k < p.len() && p[k] == '^'
        invariant
            k <= p@.len(),
            spec_trim_carets(p@) == spec_trim_carets(p@.skip(k as int)),
        decreases p@.len() - k,
    {
        proof {
            assert(p@.skip(k as int)[0] == p@[k as int]);
            assert(p@.skip(k as int).drop_first() =~= p@.skip(k + 1));
        }
        k = k + 1;
    }
    let mut r: Vec<char> = Vec::new();
    let mut i = k;
    while i < p.len()
        invariant
            k <= i <= p@.len(),
            r@ == p@.subrange(k as int, i as int),
        decreases p@.len() - i,
    {
        r.push(p[i]);
        proof {
            assert(r@ =~= p@.subrange(k as int, i + 1));
        }
        i = i + 1;
    }
    proof {
        assert(r@ =~= p@.skip(k as int));
    }
    r
}

pub(crate) fn match_at(v: &Vec<char>, p: &Vec<char>, i: usize) -> (b: bool)
    requires
        i + p@.len() <= v@.len(),
    ensures
        b == (v@.subrange(i as int, i + p@.len()) == p@),
{
    let n = v.len();
    let mut k: usize = 0;
    while k < p.len()
        invariant
            k <= p@.len(),
            i + p@.len() <= v@.len(),
            v@.len() == n,
            forall|m: int| 0 <= m < k ==> v@[i + m] == p@[m],
        decreases p@.len() - k,
    {
        if v[i + k] != p[k] {
            proof {
                assert(v@.subrange(i as int, i + p@.len())[k as int] != p@[k as int]);
            }
            return false;
        }
        k = k + 1;
    }
    proof {
        assert(v@.subrange(i as int, i + p@.len()) =~= p@);
    }
    true
}

fn starts_with_chars(v: &Vec<char>, p: &Vec<char>) -> (b: bool)
    ensures
        b == spec_starts_with(v@, p@),
{
    if p.len() > v.len() {
        return false;
    }
    match_at(v, p, 0)
}

fn contains_chars(v: &Vec<char>, p: &Vec<char>) -> (b: bool)
    ensures
        b == spec_contains_sub(v@, p@),
{
    let n = v.len();
    let m = p.len();
    if m > n {
        return false;
    }
    if m == 0 {
        proof {
            assert(v@.subrange(0, 0 + p@.len() as int) =~= p@);
        }
        return true;
    }
    let mut i: usize = 0;
    while i <= n - m
        invariant
            i <= v@.len() - p@.len() + 1,
            1 <= p@.len() <= v@.len(),
            n == v@.len(),
            m == p@.len(),
            forall|k: int| 0 <= k < i ==> #[trigger] v@.subrange(k, k + p@.len()) != p@,
        decreases v@.len() - p@.len() - i + 1,
    {
        if match_at(v, p, i) {
            return true;
        }
        i = i + 1;
    }
    false
}

/// First member whose key, read as a pattern, matches `key`.
fn find_pattern<'a>(ms: &'a Vec<JsonMember>, key: &String) -> (r: Option<&'a JsonValue>)
    ensures
        match r {
            Some(x) => spec_first_pattern(ms@, key@) == Some(*x),
            None => spec_first_pattern(ms@, key@) is None,
        },
{
    let mut j: usize = 0;
    proof {
        assert(ms@.skip(0) =~= ms@);
    }
    while j < ms.len()
        invariant
            j <= ms@.len(),
            spec_first_pattern(ms@, key@) == spec_first_pattern(ms@.skip(j as int), key@),
        decreases ms@.len() - j,
    {
        proof {
            assert(ms@.skip(j as int)[0] == ms@[j as int]);
            assert(ms@.skip(j as int).drop_first() =~= ms@.skip(j + 1));
        }
        let matched = match regex_lite_match(ms[j].key.as_str(), key.as_str()) {
            Ok(b) => b,
            Err(_) => false,
        };
        if matched {
            return Some(&ms[j].value);
        }
        j = j + 1;
    }
    None
}

fn try_additional<'a>(v: &'a JsonValue) -> (r: Option<&'a JsonValue>)
    ensures
        match r {
            Some(x) => spec_try_additional(*v) == Some(*x),
            None => spec_try_additional(*v) is None,
        },
{
    match v.get("additionalProperties") {
        Some(ap) => if ap.is_object() {
            Some(ap)
        } else {
            None
        },
        None => None,
    }
}

fn try_key_fallback<'a>(v: &'a JsonValue, key: &String) -> (r: Option<&'a JsonValue>)
    ensures
        match r {
            Some(x) => spec_try_key_fallback(*v, key@) == Some(*x),
            None => spec_try_key_fallback(*v, key@) is None,
        },
{
    match v.get("patternProperties") {
        Some(pp) => match pp {
            JsonValue::Object(ms) => match find_pattern(ms, key) {
                Some(x) => Some(x),
                None => try_additional(v),
            },
            _ => try_additional(v),
        },
        None => try_additional(v),
    }
}

fn try_prefix_items<'a>(v: &'a JsonValue, i: usize) -> (r: Option<&'a JsonValue>)
    ensures
        match r {
            Some(x) => spec_try_prefix_items(*v, i as int) == Some(*x),
            None => spec_try_prefix_items(*v, i as int) is None,
        },
{
    match v.get("prefixItems") {
        Some(pi) => match pi {
            JsonValue::Array(xs) => if i < xs.len() {
                Some(&xs[i])
            } else {
                None
            },
            _ => None,
        },
        None => None,
    }
}

/// Direct dispatch of one path segment, without combinators.
fn try_navigate_segment<'a>(v: &'a JsonValue, seg: &PathSegment) -> (r: Option<&'a JsonValue>)
    ensures
        match r {
            Some(x) => spec_try_segment(*v, seg@) == Some(*x),
            None => spec_try_segment(*v, seg@) is None,
        },
{
    match seg {
        PathSegment::Key(key) => match v.get("properties") {
            Some(props) => match props.get(key.as_str()) {
                Some(p) => Some(p),
                None => try_key_fallback(v, key),
            },
            None => try_key_fallback(v, key),
        },
        PathSegment::Index(idx) => match v.get("items") {
            Some(items) => if items.is_object() {
                Some(items)
            } else {
                match items {
                    JsonValue::Array(xs) => if *idx < xs.len() {
                        Some(&xs[*idx])
                    } else {
                        try_prefix_items(v, *idx)
                    },
                    _ => try_prefix_items(v, *idx),
                }
            },
            None => try_prefix_items(v, *idx),
        },
    }
}

fn navigate_inner<'a>(
    root: &'a JsonValue,
    cur: &'a JsonValue,
    path: &Vec<PathSegment>,
    at: usize,
    visited: Vec<String>,
    fuel: u64,
) -> (r: Option<&'a JsonValue>)
    requires
        at <= path@.len(),
    ensures
        ({
            let s = spec_navigate_inner(
                *root,
                *cur,
                segs_view(path@).skip(at as int),
                strs_view(visited@),
                fuel as nat,
            );
            match r {
                Some(x) => s == Some(*x),
                None => s is None,
            }
        }),
    decreases fuel, 2int, 0int,
{
    if fuel == 0 {
        return None;
    }
    let mut vis = visited;
    let cur2: &'a JsonValue = match ref_fragment(cur) {
        Some(f) => {
            if contains_string(&vis, &f) {
                return None;
            }
            match crate::json::json_pointer(root, f.as_str()) {
                Some(t) => {
                    proof {
                        lemma_strs_view_push(vis@, f);
                    }
                    vis.push(f);
                    t
                },
                None => cur,
            }
        },
        None => cur,
    };
    if at >= path.len() {
        proof {
            assert(segs_view(path@).skip(at as int).len() == 0);
        }
        return Some(cur2);
    }
    proof {
        assert(segs_view(path@).skip(at as int)[0] == path@[at as int]@);
        assert(segs_view(path@).skip(at as int).drop_first() =~= segs_view(path@).skip(at + 1));
    }
    match try_navigate_segment(cur2, &path[at]) {
        Some(child) => navigate_inner(root, child, path, at + 1, vis, fuel - 1),
        None => nav_combo(root, cur2, path, at, vis, fuel - 1),
    }
}

fn nav_combo<'a>(
    root: &'a JsonValue,
    cur: &'a JsonValue,
    path: &Vec<PathSegment>,
    at: usize,
    visited: Vec<String>,
    fuel: u64,
) -> (r: Option<&'a JsonValue>)
    requires
        at <= path@.len(),
    ensures
        ({
            let s = spec_nav_combo(
                *root,
                *cur,
                segs_view(path@).skip(at as int),
                strs_view(visited@),
                fuel as nat,
            );
            match r {
                Some(x) => s == Some(*x),
                None => s is None,
            }
        }),
    decreases fuel, 2int, 0int,
{
    match nav_keyword(root, cur, "allOf", path, at, clone_strings(&visited), fuel) {
        Some(x) => Some(x),
        None => match nav_keyword(root, cur, "anyOf", path, at, clone_strings(&visited), fuel) {
            Some(x) => Some(x),
            None => nav_keyword(root, cur, "oneOf", path, at, visited, fuel),
        },
    }
}

fn nav_keyword<'a>(
    root: &'a JsonValue,
    cur: &'a JsonValue,
    kw: &str,
    path: &Vec<PathSegment>,
    at: usize,
    visited: Vec<String>,
    fuel: u64,
) -> (r: Option<&'a JsonValue>)
    requires
        at <= path@.len(),
    ensures
        ({
            let s = spec_nav_keyword(
                *root,
                *cur,
                kw@,
                segs_view(path@).skip(at as int),
                strs_view(visited@),
                fuel as nat,
            );
            match r {
                Some(x) => s == Some(*x),
                None => s is None,
            }
        }),
    decreases fuel, 1int, 0int,
{
    match cur.get(kw) {
        Some(arr) => match arr {
            JsonValue::Array(xs) => {
                proof {
                    assert(xs@.skip(0) =~= xs@);
                }
                nav_list(root, xs, 0, path, at, visited, fuel)
            },
            _ => None,
        },
        None => None,
    }
}

fn nav_list<'a>(
    root: &'a JsonValue,
    xs: &'a Vec<JsonValue>,
    j: usize,
    path: &Vec<PathSegment>,
    at: usize,
    visited: Vec<String>,
    fuel: u64,
) -> (r: Option<&'a JsonValue>)
    requires
        at <= path@.len(),
        j <= xs@.len(),
    ensures
        ({
            let s = spec_nav_list(
                *root,
                xs@.skip(j as int),
                segs_view(path@).skip(at as int),
                strs_view(visited@),
                fuel as nat,
            );
            match r {
                Some(x) => s == Some(*x),
                None => s is None,
            }
        }),
    decreases fuel, 0int, xs@.len() - j,
{
    if j >= xs.len() || fuel == 0 {
        return None;
    }
    proof {
        assert(xs@.skip(j as int)[0] == xs@[j as int]);
        assert(xs@.skip(j as int).drop_first() =~= xs@.skip(j + 1));
    }
    match navigate_inner(root, &xs[j], path, at, clone_strings(&visited), fuel - 1) {
        Some(x) => Some(x),
        None => nav_list(root, xs, j + 1, path, at, visited, fuel),
    }
}

fn cap_add_exec(a: u64, b: u64) -> (r: u64)
    requires
        a <= 0x100000,
        b <= 0x100000,
    ensures
        r as int == cap_add(a as int, b as int),
        r <= 0x100000,
{
    if a + b > 0x100000 {
        0x100000
    } else {
        a + b
    }
}

fn json_size(v: &JsonValue) -> (r: u64)
    ensures
        r as int == spec_size(*v),
        r <= 0x100000,
    decreases *v, 1int, 0int,
{
    match v {
        JsonValue::Array(xs) => cap_add_exec(1, json_size_arr(xs, 0)),
        JsonValue::Object(ms) => cap_add_exec(1, json_size_obj(ms, 0)),
        _ => 1,
    }
}

fn json_size_arr(xs: &Vec<JsonValue>, i: usize) -> (r: u64)
    requires
        i <= xs@.len(),
    ensures
        r as int == spec_size_arr(*xs, i as int),
        r <= 0x100000,
    decreases *xs, 0int, xs@.len() - i,
{
    if i >= xs.len() {
        0
    } else {
        cap_add_exec(json_size(&xs[i]), json_size_arr(xs, i + 1))
    }
}

fn json_size_obj(ms: &Vec<JsonMember>, i: usize) -> (r: u64)
    requires
        i <= ms@.len(),
    ensures
        r as int == spec_size_obj(*ms, i as int),
        r <= 0x100000,
    decreases *ms, 0int, ms@.len() - i,
{
    if i >= ms.len() {
        0
    } else {
        cap_add_exec(cap_add_exec(1, json_size(&ms[i].value)), json_size_obj(ms, i + 1))
    }
}

fn budget(root: &JsonValue, n: usize) -> (r: u64)
    ensures
        r as nat == spec_budget(*root, n as int),
{
    let s: u64 = json_size(root) + 1;
    let m: u64 = if n > 0x100000 {
        0x100000
    } else {
        n as u64
    };
    proof {
        assert(s * s <= 0x10000200001) by (nonlinear_arith)
            requires
                s <= 0x100001,
        ;
        assert(s * s * (m + 1) <= 0x10000200001 * 0x100001) by (nonlinear_arith)
            requires
                s * s <= 0x10000200001,
                m <= 0x100000,
        ;
    }
    s * s * (m + 1) + m + 1
}

// ────────────────────────────────────────────────────────────
// Queries on a resolved node
// ────────────────────────────────────────────────────────────

/// One `$ref` resolution, as the queries use it: the target when the node is
/// a local reference that resolves, the node itself otherwise.
pub open spec fn spec_resolved(root: JsonValue, cur: JsonValue) -> JsonValue {
    match spec_ref_fragment(cur) {
        Some(f) => match spec_pointer(root, f) {
            Some(t) => t,
            None => cur,
        },
        None => cur,
    }
}

/// The `type` field of the resolved node, when it is a string.
pub open spec fn spec_schema_type(root: JsonValue, cur: JsonValue) -> Option<Seq<char>> {
    match spec_get(spec_resolved(root, cur), "type"@) {
        Some(t) => match t {
            JsonValue::Text(s) => Some(s@),
            _ => None,
        },
        None => None,
    }
}

/// The rendering of one `enum` element: strings quoted as they stand, any
/// other value as its JSON text.
pub open spec fn spec_enum_one(v: JsonValue) -> Seq<char> {
    match v {
        JsonValue::Text(s) => seq!['"'] + s@ + seq!['"'],
        other => crate::json::spec_render(other),
    }
}

pub open spec fn spec_enum_list(xs: Seq<JsonValue>) -> Seq<Seq<char>>
    decreases xs.len(),
{
    if xs.len() == 0 {
        Seq::<Seq<char>>::empty()
    } else {
        seq![spec_enum_one(xs[0])] + spec_enum_list(xs.drop_first())
    }
}

/// The rendered `enum` values of the resolved node, in stored order.
pub open spec fn spec_enum_values(root: JsonValue, cur: JsonValue) -> Seq<Seq<char>> {
    match spec_get(spec_resolved(root, cur), "enum"@) {
        Some(e) => match e {
            JsonValue::Array(xs) => spec_enum_list(xs@),
            _ => Seq::<Seq<char>>::empty(),
        },
        None => Seq::<Seq<char>>::empty(),
    }
}

// ────────────────────────────────────────────────────────────
// Property names
// ────────────────────────────────────────────────────────────

pub open spec fn spec_keys_of(ms: Seq<JsonMember>) -> Seq<Seq<char>>
    decreases ms.len(),
{
    if ms.len() == 0 {
        Seq::<Seq<char>>::empty()
    } else {
        seq![ms[0].key@] + spec_keys_of(ms.drop_first())
    }
}

/// The property names a node offers, in encounter order and with repeats:
/// the keys of its own `properties`, then those reachable through `allOf`,
/// `anyOf` and `oneOf`, each sub-schema resolved on the way. The fuel bounds
/// the walk through cyclic references.
pub open spec fn spec_prop_names(root: JsonValue, cur: JsonValue, fuel: nat) -> Seq<Seq<char>>
    decreases fuel, 2int, 0int,
{
    if fuel == 0 {
        Seq::<Seq<char>>::empty()
    } else {
        let res = spec_resolved(root, cur);
        let own = match spec_get(res, "properties"@) {
            Some(p) => match p {
                JsonValue::Object(ms) => spec_keys_of(ms@),
                _ => Seq::<Seq<char>>::empty(),
            },
            None => Seq::<Seq<char>>::empty(),
        };
        own + spec_prop_kw(root, res, "allOf"@, (fuel - 1) as nat) + spec_prop_kw(
            root,
            res,
            "anyOf"@,
            (fuel - 1) as nat,
        ) + spec_prop_kw(root, res, "oneOf"@, (fuel - 1) as nat)
    }
}

pub open spec fn spec_prop_kw(root: JsonValue, res: JsonValue, kw: Seq<char>, fuel: nat) -> Seq<
    Seq<char>,
>
    decreases fuel, 1int, 0int,
{
    match spec_get(res, kw) {
        Some(a) => match a {
            JsonValue::Array(xs) => spec_prop_list(root, xs@, fuel),
            _ => Seq::<Seq<char>>::empty(),
        },
        None => Seq::<Seq<char>>::empty(),
    }
}

pub open spec fn spec_prop_list(root: JsonValue, xs: Seq<JsonValue>, fuel: nat) -> Seq<Seq<char>>
    decreases fuel, 0int, xs.len(),
{
    if xs.len() == 0 || fuel == 0 {
        Seq::<Seq<char>>::empty()
    } else {
        spec_prop_names(root, xs[0], (fuel - 1) as nat) + spec_prop_list(
            root,
            xs.drop_first(),
            fuel,
        )
    }
}

/// Strict lexicographic order on character sequences by scalar value, read
/// from position `k` on: the order of Rust's `str` comparison.
pub open spec fn spec_str_lt_from(a: Seq<char>, b: Seq<char>, k: int) -> bool
    decreases b.len() - k when 0 <= k
{
    if k >= b.len() {
        false
    } else if k >= a.len() {
        true
    } else if (a[k] as u32) < (b[k] as u32) {
        true
    } else if (a[k] as u32) > (b[k] as u32) {
        false
    } else {
        spec_str_lt_from(a, b, k + 1)
    }
}

pub open spec fn spec_str_lt(a: Seq<char>, b: Seq<char>) -> bool {
    spec_str_lt_from(a, b, 0)
}

pub proof fn lemma_str_lt_from_trans(a: Seq<char>, b: Seq<char>, c: Seq<char>, k: int)
    requires
        0 <= k,
        spec_str_lt_from(a, b, k),
        spec_str_lt_from(b, c, k),
    ensures
        spec_str_lt_from(a, c, k),
    decreases b.len() - k,
{
    if k >= a.len() {
    } else if (a[k] as u32) < (b[k] as u32) {
    } else {
        if (a[k] as u32) == (b[k] as u32) && (b[k] as u32) == (c[k] as u32) {
            lemma_str_lt_from_trans(a, b, c, k + 1);
        }
    }
}

/// The order is transitive.
pub proof fn lemma_str_lt_trans(a: Seq<char>, b: Seq<char>, c: Seq<char>)
    requires
        spec_str_lt(a, b),
        spec_str_lt(b, c),
    ensures
        spec_str_lt(a, c),
{
    lemma_str_lt_from_trans(a, b, c, 0);
}

/// Three-way comparison of two strings in the order of `spec_str_lt`.
fn cmp_strings(a: &String, b: &String) -> (c: i32)
    ensures
        c == -1 || c == 0 || c == 1,
        (c == -1) == spec_str_lt(a@, b@),
        (c == 0) == (a@ == b@),
        (c == 1) == spec_str_lt(b@, a@),
{
    let av = crate::json::str_chars(a.as_str());
    let bv = crate::json::str_chars(b.as_str());
    let mut k: usize = 0;
    loop
        invariant
            0 <= k,
            av@ == a@,
            bv@ == b@,
            k <= a@.len(),
            k <= b@.len(),
            forall|m: int| 0 <= m < k ==> a@[m] == b@[m],
            spec_str_lt_from(a@, b@, 0) == spec_str_lt_from(a@, b@, k as int),
            spec_str_lt_from(b@, a@, 0) == spec_str_lt_from(b@, a@, k as int),
        decreases a@.len() + b@.len() - k,
    {
        if k >= av.len() && k >= bv.len() {
            proof {
                assert(a@ =~= b@);
            }
            return 0;
        }
        if k >= av.len() {
            proof {
                assert(k == a@.len());
                assert((k as int) < b@.len());
                assert(spec_str_lt_from(a@, b@, k as int));
                assert(!spec_str_lt_from(b@, a@, k as int));
                assert(spec_str_lt(a@, b@));
                assert(!spec_str_lt(b@, a@));
                assert(a@ != b@);
            }
            return -1;
        }
        if k >= bv.len() {
            return 1;
        }
        let ca = av[k];
        let cb = bv[k];
        if (ca as u32) < (cb as u32) {
            proof {
                assert(a@ != b@);
            }
            return -1;
        }
        if (ca as u32) > (cb as u32) {
            proof {
                assert(a@ != b@);
            }
            return 1;
        }
        proof {
            vstd::utf8::char_u32_cast(a@[k as int], a@[k as int] as u32);
            vstd::utf8::char_u32_cast(b@[k as int], b@[k as int] as u32);
            assert(a@[k as int] == b@[k as int]);
        }
        k = k + 1;
    }
}

/// Insert each string at its ordered place, once: the result is strictly
/// ascending and holds exactly the strings of the input.
fn sort_unique(v: Vec<String>) -> (r: Vec<String>)
    ensures
        forall|i: int, j: int| 0 <= i < j < r@.len() ==> spec_str_lt(r@[i]@, r@[j]@),
        forall|x: Seq<char>| seq_contains_str(strs_view(r@), x) == seq_contains_str(
            strs_view(v@),
            x,
        ),
{
    let mut r: Vec<String> = Vec::new();
    let mut i: usize = 0;
    while i < v.len()
        invariant
            i <= v@.len(),
            forall|p: int, q: int| 0 <= p < q < r@.len() ==> spec_str_lt(r@[p]@, r@[q]@),
            forall|x: Seq<char>| seq_contains_str(strs_view(r@), x) == seq_contains_str(
                strs_view(v@.subrange(0, i as int)),
                x,
            ),
        decreases v@.len() - i,
    {
        let ghost iold = i as int;
        insert_sorted(&mut r, v[i].clone());
        i = i + 1;
        proof {
            assert forall|x: Seq<char>|
                seq_contains_str(strs_view(r@), x) == seq_contains_str(
                    strs_view(v@.subrange(0, i as int)),
                    x,
                ) by {
                let s1 = strs_view(v@.subrange(0, i as int));
                let s0 = strs_view(v@.subrange(0, iold));
                assert(seq_contains_str(strs_view(r@), x) == (seq_contains_str(s0, x) || x
                    == v@[iold]@));
                if seq_contains_str(s1, x) {
                    let w = choose|w: int| 0 <= w < s1.len() && s1[w] == x;
                    if w < iold {
                        assert(s0[w] == x);
                    } else {
                        assert(s1[w] == v@[iold]@);
                    }
                }
                if seq_contains_str(s0, x) {
                    let w = choose|w: int| 0 <= w < s0.len() && s0[w] == x;
                    assert(s1[w] == x);
                }
                if x == v@[iold]@ {
                    assert(s1[iold] == x);
                }
            }
        }
    }
    proof {
        assert(v@.subrange(0, i as int) =~= v@);
    }
    r
}

/// Scan the strictly ascending `r` from `p` for the place of `x`: the first
/// position not below `x`, and whether `x` already stands there.
fn scan_from(r: &Vec<String>, x: &String, p: usize) -> (res: (usize, bool))
    requires
        p <= r@.len(),
    ensures
        p <= res.0 <= r@.len(),
        forall|m: int| p <= m < res.0 ==> spec_str_lt(#[trigger] r@[m]@, x@),
        res.1 ==> res.0 < r@.len() && r@[res.0 as int]@ == x@,
        !res.1 ==> res.0 == r@.len() || spec_str_lt(x@, r@[res.0 as int]@),
    decreases r@.len() - p,
{
    if p >= r.len() {
        return (p, false);
    }
    let c = cmp_strings(&r[p], x);
    if c == 0 {
        (p, true)
    } else if c == 1 {
        (p, false)
    } else {
        scan_from(r, x, p + 1)
    }
}

/// Insert `x` into the strictly ascending `r`, keeping it strictly ascending;
/// a string already present is not inserted again.
fn insert_sorted(r: &mut Vec<String>, x: String)
    requires
        forall|p: int, q: int| 0 <= p < q < old(r)@.len() ==> spec_str_lt(
            #[trigger] old(r)@[p]@,
            #[trigger] old(r)@[q]@,
        ),
    ensures
        forall|p: int, q: int| 0 <= p < q < final(r)@.len() ==> spec_str_lt(
            #[trigger] final(r)@[p]@,
            #[trigger] final(r)@[q]@,
        ),
        forall|y: Seq<char>| seq_contains_str(strs_view(final(r)@), y) == (seq_contains_str(
            strs_view(old(r)@),
            y,
        ) || y == x@),
{
    let (p, found) = scan_from(r, &x, 0);
    if found {
        // Already present.
        proof {
            assert forall|y: Seq<char>|
                seq_contains_str(strs_view(r@), y) == (seq_contains_str(strs_view(old(r)@), y)
                    || y == x@) by {
                if y == x@ {
                    assert(strs_view(r@)[p as int] == y);
                }
            }
        }
        return;
    }
    r.insert(p, x);
    proof {
        let rr = final(r)@;
        let oo = old(r)@;
        assert forall|pp: int, qq: int| 0 <= pp < qq < rr.len() implies spec_str_lt(
            #[trigger] rr[pp]@,
            #[trigger] rr[qq]@,
        ) by {
            if qq < p {
                assert(rr[pp] == oo[pp] && rr[qq] == oo[qq]);
            } else if pp < p && qq == p {
                assert(rr[pp] == oo[pp]);
                assert(spec_str_lt(oo[pp]@, x@));
            } else if pp < p && qq > p {
                assert(rr[pp] == oo[pp] && rr[qq] == oo[qq - 1]);
                if p < oo.len() {
                    assert(spec_str_lt(x@, oo[p as int]@));
                    if qq - 1 == p {
                        lemma_str_lt_trans(oo[pp]@, x@, oo[qq - 1]@);
                    } else {
                        assert(spec_str_lt(oo[pp]@, oo[qq - 1]@));
                    }
                }
            } else if pp == p {
                assert(rr[pp]@ == x@ && rr[qq] == oo[qq - 1]);
                assert(spec_str_lt(x@, oo[p as int]@));
                if qq - 1 == p {
                } else {
                    lemma_str_lt_trans(x@, oo[p as int]@, oo[qq - 1]@);
                }
            } else {
                assert(rr[pp] == oo[pp - 1] && rr[qq] == oo[qq - 1]);
            }
        }
        assert forall|y: Seq<char>|
            seq_contains_str(strs_view(rr), y) == (seq_contains_str(strs_view(oo), y) || y == x@)
            by {
            if seq_contains_str(strs_view(rr), y) {
                let w = choose|w: int| 0 <= w < rr.len() && strs_view(rr)[w] == y;
                if w < p {
                    assert(strs_view(oo)[w] == y);
                } else if w == p {
                } else {
                    assert(strs_view(oo)[w - 1] == y);
                }
            }
            if seq_contains_str(strs_view(oo), y) {
                let w = choose|w: int| 0 <= w < oo.len() && strs_view(oo)[w] == y;
                if w < p {
                    assert(strs_view(rr)[w] == y);
                } else {
                    assert(strs_view(rr)[w + 1] == y);
                }
            }
            if y == x@ {
                assert(strs_view(rr)[p as int] == y);
            }
        }
    }
}

// ────────────────────────────────────────────────────────────
// Hover information
// ────────────────────────────────────────────────────────────

/// Information extracted from a schema node for hover display.
#[derive(Debug)]
pub struct HoverInfo {
    pub description: Option<String>,
    pub type_info: Option<String>,
    pub default: Option<String>,
    pub examples: Vec<String>,
    pub enum_values: Vec<String>,
}

pub open spec fn opt_str_view(o: Option<String>) -> Option<Seq<char>> {
    match o {
        Some(s) => Some(s@),
        None => None,
    }
}

/// The description of a node: its `description` string, else its `title`.
pub open spec fn spec_description(res: JsonValue) -> Option<Seq<char>> {
    match spec_get(res, "description"@) {
        Some(d) => match d {
            JsonValue::Text(s) => Some(s@),
            _ => spec_title(res),
        },
        None => spec_title(res),
    }
}

pub open spec fn spec_title(res: JsonValue) -> Option<Seq<char>> {
    match spec_get(res, "title"@) {
        Some(t) => match t {
            JsonValue::Text(s) => Some(s@),
            _ => None,
        },
        None => None,
    }
}

/// The strings among a `type` array.
pub open spec fn spec_type_names(xs: Seq<JsonValue>) -> Seq<Seq<char>>
    decreases xs.len(),
{
    if xs.len() == 0 {
        Seq::<Seq<char>>::empty()
    } else {
        (match xs[0] {
            JsonValue::Text(s) => seq![s@],
            _ => Seq::<Seq<char>>::empty(),
        }) + spec_type_names(xs.drop_first())
    }
}

pub open spec fn spec_join_pipe(xs: Seq<Seq<char>>) -> Seq<char>
    decreases xs.len(),
{
    if xs.len() == 0 {
        Seq::<char>::empty()
    } else if xs.len() == 1 {
        xs[0]
    } else {
        xs[0] + " | "@ + spec_join_pipe(xs.drop_first())
    }
}

/// The displayable type of a node: a string `type` as it stands, an array
/// `type` joined with pipes, nothing otherwise.
pub open spec fn spec_type_info(res: JsonValue) -> Option<Seq<char>> {
    match spec_get(res, "type"@) {
        Some(t) => match t {
            JsonValue::Text(s) => Some(s@),
            JsonValue::Array(xs) => if spec_type_names(xs@).len() == 0 {
                None
            } else {
                Some(spec_join_pipe(spec_type_names(xs@)))
            },
            _ => None,
        },
        None => None,
    }
}

pub open spec fn spec_default_text(res: JsonValue) -> Option<Seq<char>> {
    match spec_get(res, "default"@) {
        Some(d) => Some(crate::json::spec_render(d)),
        None => None,
    }
}

pub open spec fn spec_render_list(xs: Seq<JsonValue>) -> Seq<Seq<char>>
    decreases xs.len(),
{
    if xs.len() == 0 {
        Seq::<Seq<char>>::empty()
    } else {
        seq![crate::json::spec_render(xs[0])] + spec_render_list(xs.drop_first())
    }
}

pub open spec fn spec_examples(res: JsonValue) -> Seq<Seq<char>> {
    match spec_get(res, "examples"@) {
        Some(e) => match e {
            JsonValue::Array(xs) => spec_render_list(xs@),
            _ => Seq::<Seq<char>>::empty(),
        },
        None => Seq::<Seq<char>>::empty(),
    }
}

pub open spec fn spec_enum_of(res: JsonValue) -> Seq<Seq<char>> {
    match spec_get(res, "enum"@) {
        Some(e) => match e {
            JsonValue::Array(xs) => spec_enum_list(xs@),
            _ => Seq::<Seq<char>>::empty(),
        },
        None => Seq::<Seq<char>>::empty(),
    }
}

/// What `extract_hover_info` must fill in, field by field.
pub open spec fn spec_hover_info(res: JsonValue, h: HoverInfo) -> bool {
    &&& opt_str_view(h.description) == spec_description(res)
    &&& opt_str_view(h.type_info) == spec_type_info(res)
    &&& opt_str_view(h.default) == spec_default_text(res)
    &&& strs_view(h.examples@) == spec_examples(res)
    &&& strs_view(h.enum_values@) == spec_enum_of(res)
}

// ────────────────────────────────────────────────────────────
// Markdown rendering of hover information
// ────────────────────────────────────────────────────────────

/// Each value wrapped in backticks, comma separated.
pub open spec fn spec_ticked(xs: Seq<Seq<char>>) -> Seq<char>
    decreases xs.len(),
{
    if xs.len() == 0 {
        Seq::<char>::empty()
    } else if xs.len() == 1 {
        seq!['`'] + xs[0] + seq!['`']
    } else {
        seq!['`'] + xs[0] + seq!['`'] + ", "@ + spec_ticked(xs.drop_first())
    }
}

/// The markdown paragraphs of a hover, from its fields, in display order.
pub open spec fn spec_md_desc(d: Option<Seq<char>>) -> Seq<Seq<char>> {
    match d {
        Some(d) => seq![d],
        None => Seq::<Seq<char>>::empty(),
    }
}

pub open spec fn spec_md_type(t: Option<Seq<char>>) -> Seq<Seq<char>> {
    match t {
        Some(t) => seq!["**Type:** `"@ + t + "`"@],
        None => Seq::<Seq<char>>::empty(),
    }
}

pub open spec fn spec_md_default(d: Option<Seq<char>>) -> Seq<Seq<char>> {
    match d {
        Some(d) => seq!["**Default:** `"@ + d + "`"@],
        None => Seq::<Seq<char>>::empty(),
    }
}

pub open spec fn spec_md_enum(vals: Seq<Seq<char>>) -> Seq<Seq<char>> {
    if vals.len() > 0 {
        seq!["**Allowed values:** "@ + spec_ticked(vals)]
    } else {
        Seq::<Seq<char>>::empty()
    }
}

pub open spec fn spec_md_examples(exs: Seq<Seq<char>>) -> Seq<Seq<char>> {
    if exs.len() > 0 {
        seq!["**Examples:** "@ + spec_ticked(exs)]
    } else {
        Seq::<Seq<char>>::empty()
    }
}

/// The whole markdown from the five fields.
pub open spec fn spec_markdown_fields(
    d: Option<Seq<char>>,
    t: Option<Seq<char>>,
    def: Option<Seq<char>>,
    vals: Seq<Seq<char>>,
    exs: Seq<Seq<char>>,
) -> Seq<char> {
    spec_join_blank(
        spec_md_desc(d) + spec_md_type(t) + spec_md_default(def) + spec_md_enum(vals)
            + spec_md_examples(exs),
    )
}

pub open spec fn spec_md_parts(h: HoverInfo) -> Seq<Seq<char>> {
    spec_md_desc(opt_str_view(h.description)) + spec_md_type(opt_str_view(h.type_info))
        + spec_md_default(opt_str_view(h.default)) + spec_md_enum(strs_view(h.enum_values@))
        + spec_md_examples(strs_view(h.examples@))
}

/// Paragraphs joined by blank lines.
pub open spec fn spec_join_blank(xs: Seq<Seq<char>>) -> Seq<char>
    decreases xs.len(),
{
    if xs.len() == 0 {
        Seq::<char>::empty()
    } else if xs.len() == 1 {
        xs[0]
    } else {
        xs[0] + "\n\n"@ + spec_join_blank(xs.drop_first())
    }
}

pub open spec fn spec_markdown(h: HoverInfo) -> Seq<char> {
    spec_join_blank(spec_md_parts(h))
}

impl HoverInfo {
    /// Render the hover as markdown: paragraphs separated by blank lines, in
    /// order: description, type, default, allowed values, examples.
    pub fn to_markdown(&self) -> (r: String)
        ensures
            r@ == spec_markdown(*self),
    {
        let mut parts: Vec<String> = Vec::new();
        match &self.description {
            Some(d) => parts.push(d.clone()),
            None => (),
        }
        proof {
            assert(strs_view(parts@) =~= spec_md_desc(opt_str_view(self.description)));
        }
        match &self.type_info {
            Some(t) => {
                let mut s = String::from_str("**Type:** `");
                s.append(t.as_str());
                s.append("`");
                parts.push(s);
            },
            None => (),
        }
        proof {
            assert(strs_view(parts@) =~= spec_md_desc(opt_str_view(self.description)) + spec_md_type(opt_str_view(self.type_info)));
        }
        match &self.default {
            Some(d) => {
                let mut s = String::from_str("**Default:** `");
                s.append(d.as_str());
                s.append("`");
                parts.push(s);
            },
            None => (),
        }
        proof {
            assert(strs_view(parts@) =~= spec_md_desc(opt_str_view(self.description))
                + spec_md_type(opt_str_view(self.type_info)) + spec_md_default(
                opt_str_view(self.default),
            ));
        }
        if self.enum_values.len() > 0 {
            let mut s = String::from_str("**Allowed values:** ");
            proof {
                assert(strs_view(self.enum_values@).skip(0) =~= strs_view(self.enum_values@));
            }
            let t = ticked_from(&self.enum_values, 0);
            s.append(t.as_str());
            parts.push(s);
        }
        proof {
            assert(strs_view(self.enum_values@).len() == self.enum_values@.len());
            assert(strs_view(parts@) =~= spec_md_desc(opt_str_view(self.description))
                + spec_md_type(opt_str_view(self.type_info)) + spec_md_default(
                opt_str_view(self.default),
            ) + spec_md_enum(strs_view(self.enum_values@)));
        }
        if self.examples.len() > 0 {
            let mut s = String::from_str("**Examples:** ");
            proof {
                assert(strs_view(self.examples@).skip(0) =~= strs_view(self.examples@));
            }
            let t = ticked_from(&self.examples, 0);
            s.append(t.as_str());
            parts.push(s);
        }
        proof {
            assert(strs_view(self.examples@).len() == self.examples@.len());
            assert(strs_view(parts@) =~= spec_md_parts(*self));
            assert(strs_view(parts@).skip(0) =~= strs_view(parts@));
        }
        join_blank_from(&parts, 0)
    }
}

fn ticked_from(xs: &Vec<String>, i: usize) -> (r: String)
    requires
        i <= xs@.len(),
    ensures
        r@ == spec_ticked(strs_view(xs@).skip(i as int)),
    decreases xs@.len() - i,
{
    proof {
        assert(strs_view(xs@).skip(i as int).len() == xs@.len() - i);
    }
    if i >= xs.len() {
        let r = String::new();
        proof {
            assert(r@ =~= spec_ticked(strs_view(xs@).skip(i as int)));
        }
        return r;
    }
    let mut r = String::from_str("`");
    r.append(xs[i].as_str());
    r.append("`");
    proof {
        reveal_strlit("`");
        assert(strs_view(xs@).skip(i as int)[0] == xs@[i as int]@);
    }
    if i + 1 < xs.len() {
        r.append(", ");
        let rest = ticked_from(xs, i + 1);
        r.append(rest.as_str());
        proof {
            assert(strs_view(xs@).skip(i as int).drop_first() =~= strs_view(xs@).skip(i + 1));
            assert(r@ =~= seq!['`'] + xs@[i as int]@ + seq!['`'] + ", "@ + spec_ticked(
                strs_view(xs@).skip(i + 1),
            ));
        }
    } else {
        proof {
            assert(r@ =~= seq!['`'] + xs@[i as int]@ + seq!['`']);
        }
    }
    r
}

fn join_blank_from(xs: &Vec<String>, i: usize) -> (r: String)
    requires
        i <= xs@.len(),
    ensures
        r@ == spec_join_blank(strs_view(xs@).skip(i as int)),
    decreases xs@.len() - i,
{
    proof {
        assert(strs_view(xs@).skip(i as int).len() == xs@.len() - i);
    }
    if i >= xs.len() {
        let r = String::new();
        proof {
            assert(r@ =~= spec_join_blank(strs_view(xs@).skip(i as int)));
        }
        return r;
    }
    let mut r = xs[i].clone();
    proof {
        assert(strs_view(xs@).skip(i as int)[0] == xs@[i as int]@);
    }
    if i + 1 < xs.len() {
        r.append("\n\n");
        let rest = join_blank_from(xs, i + 1);
        r.append(rest.as_str());
        proof {
            assert(strs_view(xs@).skip(i as int).drop_first() =~= strs_view(xs@).skip(i + 1));
            assert(r@ =~= xs@[i as int]@ + "\n\n"@ + spec_join_blank(strs_view(xs@).skip(i + 1)));
        }
    }
    r
}

// ────────────────────────────────────────────────────────────
// Executable queries
// ────────────────────────────────────────────────────────────

/// One `$ref` resolution for the queries.
fn resolved_of<'a>(root: &'a JsonValue, cur: &'a JsonValue) -> (r: &'a JsonValue)
    ensures
        *r == spec_resolved(*root, *cur),
{
    match ref_fragment(cur) {
        Some(f) => match crate::json::json_pointer(root, f.as_str()) {
            Some(t) => t,
            None => cur,
        },
        None => cur,
    }
}

/// Extract hover information from a (resolved) schema node.
pub fn extract_hover_info(schema: &JsonValue) -> (h: HoverInfo)
    ensures
        spec_hover_info(*schema, h),
{
    let description: Option<String> = match schema.get("description") {
        Some(d) => match d {
            JsonValue::Text(s) => Some(s.clone()),
            _ => title_of(schema),
        },
        None => title_of(schema),
    };
    let type_info: Option<String> = match schema.get("type") {
        Some(t) => match t {
            JsonValue::Text(s) => Some(s.clone()),
            JsonValue::Array(xs) => {
                proof {
                    assert(xs@.skip(0) =~= xs@);
                }
                let names = type_names_of(xs, 0);
                if names.len() == 0 {
                    proof {
                        assert(strs_view(names@).len() == 0);
                    }
                    None
                } else {
                    proof {
                        assert(strs_view(names@).skip(0) =~= strs_view(names@));
                    }
                    Some(join_pipe_from(&names, 0))
                }
            },
            _ => None,
        },
        None => None,
    };
    let default: Option<String> = match schema.get("default") {
        Some(d) => Some(crate::json::render_json(d)),
        None => None,
    };
    let examples: Vec<String> = match schema.get("examples") {
        Some(e) => match e {
            JsonValue::Array(xs) => {
                proof {
                    assert(xs@.skip(0) =~= xs@);
                }
                render_each(xs, 0)
            },
            _ => Vec::new(),
        },
        None => Vec::new(),
    };
    let enum_values: Vec<String> = match schema.get("enum") {
        Some(e) => match e {
            JsonValue::Array(xs) => {
                proof {
                    assert(xs@.skip(0) =~= xs@);
                }
                enum_each(xs, 0)
            },
            _ => Vec::new(),
        },
        None => Vec::new(),
    };
    proof {
        assert(strs_view(Seq::<String>::empty()) =~= Seq::<Seq<char>>::empty());
    }
    HoverInfo { description, type_info, default, examples, enum_values }
}

fn title_of(schema: &JsonValue) -> (r: Option<String>)
    ensures
        opt_str_view(r) == spec_title(*schema),
{
    match schema.get("title") {
        Some(t) => match t {
            JsonValue::Text(s) => Some(s.clone()),
            _ => None,
        },
        None => None,
    }
}

fn type_names_of(xs: &Vec<JsonValue>, i: usize) -> (r: Vec<String>)
    requires
        i <= xs@.len(),
    ensures
        strs_view(r@) == spec_type_names(xs@.skip(i as int)),
    decreases xs@.len() - i,
{
    if i >= xs.len() {
        let r: Vec<String> = Vec::new();
        proof {
            assert(strs_view(r@) =~= spec_type_names(xs@.skip(i as int)));
        }
        return r;
    }
    proof {
        assert(xs@.skip(i as int)[0] == xs@[i as int]);
        assert(xs@.skip(i as int).drop_first() =~= xs@.skip(i + 1));
    }
    let mut rest = type_names_of(xs, i + 1);
    match &xs[i] {
        JsonValue::Text(s) => {
            let mut r: Vec<String> = Vec::new();
            r.push(s.clone());
            append_strings(&mut r, &rest);
            proof {
                assert(strs_view(r@) =~= spec_type_names(xs@.skip(i as int)));
            }
            r
        },
        _ => {
            proof {
                assert(strs_view(rest@) =~= spec_type_names(xs@.skip(i as int)));
            }
            rest
        },
    }
}

/// Append clones of `src`'s strings to `dst`.
fn append_strings(dst: &mut Vec<String>, src: &Vec<String>)
    ensures
        final(dst)@ == old(dst)@ + src@,
{
    let mut i: usize = 0;
    proof {
        assert(old(dst)@ + src@.subrange(0, 0) =~= old(dst)@);
    }
    while i < src.len()
        invariant
            i <= src@.len(),
            dst@ == old(dst)@ + src@.subrange(0, i as int),
        decreases src@.len() - i,
    {
        dst.push(src[i].clone());
        proof {
            assert(dst@ =~= old(dst)@ + src@.subrange(0, i + 1));
        }
        i = i + 1;
    }
    proof {
        assert(old(dst)@ + src@.subrange(0, i as int) =~= old(dst)@ + src@);
    }
}

fn join_pipe_from(xs: &Vec<String>, i: usize) -> (r: String)
    requires
        i <= xs@.len(),
    ensures
        r@ == spec_join_pipe(strs_view(xs@).skip(i as int)),
    decreases xs@.len() - i,
{
    proof {
        assert(strs_view(xs@).skip(i as int).len() == xs@.len() - i);
    }
    if i >= xs.len() {
        let r = String::new();
        proof {
            assert(r@ =~= spec_join_pipe(strs_view(xs@).skip(i as int)));
        }
        return r;
    }
    let mut r = xs[i].clone();
    proof {
        assert(strs_view(xs@).skip(i as int)[0] == xs@[i as int]@);
    }
    if i + 1 < xs.len() {
        r.append(" | ");
        let rest = join_pipe_from(xs, i + 1);
        r.append(rest.as_str());
        proof {
            assert(strs_view(xs@).skip(i as int).drop_first() =~= strs_view(xs@).skip(i + 1));
            assert(r@ =~= xs@[i as int]@ + " | "@ + spec_join_pipe(strs_view(xs@).skip(i + 1)));
        }
    }
    r
}

fn render_each(xs: &Vec<JsonValue>, i: usize) -> (r: Vec<String>)
    requires
        i <= xs@.len(),
    ensures
        strs_view(r@) == spec_render_list(xs@.skip(i as int)),
    decreases xs@.len() - i,
{
    if i >= xs.len() {
        let r: Vec<String> = Vec::new();
        proof {
            assert(strs_view(r@) =~= spec_render_list(xs@.skip(i as int)));
        }
        return r;
    }
    proof {
        assert(xs@.skip(i as int)[0] == xs@[i as int]);
        assert(xs@.skip(i as int).drop_first() =~= xs@.skip(i + 1));
    }
    let rest = render_each(xs, i + 1);
    let mut r: Vec<String> = Vec::new();
    r.push(crate::json::render_json(&xs[i]));
    append_strings(&mut r, &rest);
    proof {
        assert(strs_view(r@) =~= spec_render_list(xs@.skip(i as int)));
    }
    r
}

fn enum_each(xs: &Vec<JsonValue>, i: usize) -> (r: Vec<String>)
    requires
        i <= xs@.len(),
    ensures
        strs_view(r@) == spec_enum_list(xs@.skip(i as int)),
    decreases xs@.len() - i,
{
    if i >= xs.len() {
        let r: Vec<String> = Vec::new();
        proof {
            assert(strs_view(r@) =~= spec_enum_list(xs@.skip(i as int)));
        }
        return r;
    }
    proof {
        assert(xs@.skip(i as int)[0] == xs@[i as int]);
        assert(xs@.skip(i as int).drop_first() =~= xs@.skip(i + 1));
    }
    let rest = enum_each(xs, i + 1);
    let one: String = match &xs[i] {
        JsonValue::Text(s) => {
            let mut q = String::from_str("\"");
            q.append(s.as_str());
            q.append("\"");
            proof {
                reveal_strlit("\"");
                assert(q@ =~= seq!['"'] + s@ + seq!['"']);
            }
            q
        },
        other => crate::json::render_json(other),
    };
    let mut r: Vec<String> = Vec::new();
    r.push(one);
    append_strings(&mut r, &rest);
    proof {
        assert(strs_view(r@) =~= spec_enum_list(xs@.skip(i as int)));
    }
    r
}

/// The raw property names of a node, in encounter order.
fn collect_prop_names(root: &JsonValue, cur: &JsonValue, fuel: u64) -> (r: Vec<String>)
    ensures
        strs_view(r@) == spec_prop_names(*root, *cur, fuel as nat),
    decreases fuel, 2int, 0int,
{
    let mut r: Vec<String> = Vec::new();
    if fuel == 0 {
        proof {
            assert(strs_view(r@) =~= spec_prop_names(*root, *cur, fuel as nat));
        }
        return r;
    }
    let res = resolved_of(root, cur);
    match res.get("properties") {
        Some(p) => match p {
            JsonValue::Object(ms) => {
                let ks = keys_of(ms, 0);
                proof {
                    assert(ms@.skip(0) =~= ms@);
                }
                append_strings(&mut r, &ks);
            },
            _ => (),
        },
        None => (),
    }
    let a = collect_prop_kw(root, res, "allOf", fuel - 1);
    append_strings(&mut r, &a);
    let b = collect_prop_kw(root, res, "anyOf", fuel - 1);
    append_strings(&mut r, &b);
    let c = collect_prop_kw(root, res, "oneOf", fuel - 1);
    append_strings(&mut r, &c);
    proof {
        assert(strs_view(r@) =~= spec_prop_names(*root, *cur, fuel as nat));
    }
    r
}

fn keys_of(ms: &Vec<JsonMember>, i: usize) -> (r: Vec<String>)
    requires
        i <= ms@.len(),
    ensures
        strs_view(r@) == spec_keys_of(ms@.skip(i as int)),
    decreases ms@.len() - i,
{
    if i >= ms.len() {
        let r: Vec<String> = Vec::new();
        proof {
            assert(strs_view(r@) =~= spec_keys_of(ms@.skip(i as int)));
        }
        return r;
    }
    proof {
        assert(ms@.skip(i as int)[0] == ms@[i as int]);
        assert(ms@.skip(i as int).drop_first() =~= ms@.skip(i + 1));
    }
    let rest = keys_of(ms, i + 1);
    let mut r: Vec<String> = Vec::new();
    r.push(ms[i].key.clone());
    append_strings(&mut r, &rest);
    proof {
        assert(strs_view(r@) =~= spec_keys_of(ms@.skip(i as int)));
    }
    r
}

fn collect_prop_kw(root: &JsonValue, res: &JsonValue, kw: &str, fuel: u64) -> (r: Vec<String>)
    ensures
        strs_view(r@) == spec_prop_kw(*root, *res, kw@, fuel as nat),
    decreases fuel, 1int, 0int,
{
    match res.get(kw) {
        Some(a) => match a {
            JsonValue::Array(xs) => {
                proof {
                    assert(xs@.skip(0) =~= xs@);
                }
                collect_prop_list(root, xs, 0, fuel)
            },
            _ => {
                let r: Vec<String> = Vec::new();
                proof {
                    assert(strs_view(r@) =~= Seq::<Seq<char>>::empty());
                }
                r
            },
        },
        None => {
            let r: Vec<String> = Vec::new();
            proof {
                assert(strs_view(r@) =~= Seq::<Seq<char>>::empty());
            }
            r
        },
    }
}

fn collect_prop_list(root: &JsonValue, xs: &Vec<JsonValue>, j: usize, fuel: u64) -> (r: Vec<
    String,
>)
    requires
        j <= xs@.len(),
    ensures
        strs_view(r@) == spec_prop_list(*root, xs@.skip(j as int), fuel as nat),
    decreases fuel, 0int, xs@.len() - j,
{
    if j >= xs.len() || fuel == 0 {
        let r: Vec<String> = Vec::new();
        proof {
            assert(strs_view(r@) =~= spec_prop_list(*root, xs@.skip(j as int), fuel as nat));
        }
        return r;
    }
    proof {
        assert(xs@.skip(j as int)[0] == xs@[j as int]);
        assert(xs@.skip(j as int).drop_first() =~= xs@.skip(j + 1));
    }
    let mut r = collect_prop_names(root, &xs[j], fuel - 1);
    let rest = collect_prop_list(root, xs, j + 1, fuel);
    append_strings(&mut r, &rest);
    proof {
        assert(strs_view(r@) =~= spec_prop_list(*root, xs@.skip(j as int), fuel as nat));
    }
    r
}

impl<'a> SchemaNode<'a> {
    pub fn new(schema: &'a JsonValue, root: &'a JsonValue) -> (r: Self)
        ensures
            r.schema == schema,
            r.root == root,
    {
        SchemaNode { schema, root }
    }

    /// Navigate to the schema node at the given JSON path.
    pub fn navigate(&self, path: &Vec<PathSegment>) -> (r: Option<SchemaNode<'a>>)
        ensures
            match r {
                Some(n) => n.root == self.root && spec_navigate(
                    *self.root,
                    *self.schema,
                    segs_view(path@),
                ) == Some(*n.schema),
                None => spec_navigate(*self.root, *self.schema, segs_view(path@)) is None,
            },
    {
        let fuel = budget(self.root, path.len());
        proof {
            assert(segs_view(path@).skip(0) =~= segs_view(path@));
            assert(segs_view(path@).len() == path@.len());
            assert(strs_view(Seq::<String>::empty()) =~= Seq::<Seq<char>>::empty());
        }
        match navigate_inner(self.root, self.schema, path, 0, Vec::new(), fuel) {
            Some(x) => Some(SchemaNode { schema: x, root: self.root }),
            None => None,
        }
    }

    fn resolved(&self) -> (r: &'a JsonValue)
        ensures
            *r == spec_resolved(*self.root, *self.schema),
    {
        resolved_of(self.root, self.schema)
    }

    /// Return the names of all properties the node defines, directly or
    /// through its combinator keywords: strictly sorted, each name once.
    pub fn property_names(&self) -> (r: Vec<String>)
        ensures
            forall|i: int, j: int| 0 <= i < j < r@.len() ==> spec_str_lt(r@[i]@, r@[j]@),
            forall|x: Seq<char>| seq_contains_str(strs_view(r@), x) == seq_contains_str(
                spec_prop_names(*self.root, *self.schema, spec_budget(*self.root, 0)),
                x,
            ),
    {
        let fuel = budget(self.root, 0);
        let raw = collect_prop_names(self.root, self.schema, fuel);
        sort_unique(raw)
    }

    /// Extract hover information from this schema node.
    pub fn hover_info(&self) -> (h: HoverInfo)
        ensures
            spec_hover_info(spec_resolved(*self.root, *self.schema), h),
    {
        extract_hover_info(self.resolved())
    }

    /// Return the rendered `enum` values, if the node has any.
    pub fn enum_values(&self) -> (r: Vec<String>)
        ensures
            strs_view(r@) == spec_enum_values(*self.root, *self.schema),
    {
        let res = self.resolved();
        match res.get("enum") {
            Some(e) => match e {
                JsonValue::Array(xs) => {
                    proof {
                        assert(xs@.skip(0) =~= xs@);
                    }
                    enum_each(xs, 0)
                },
                _ => {
                    let r: Vec<String> = Vec::new();
                    proof {
                        assert(strs_view(r@) =~= Seq::<Seq<char>>::empty());
                    }
                    r
                },
            },
            None => {
                let r: Vec<String> = Vec::new();
                proof {
                    assert(strs_view(r@) =~= Seq::<Seq<char>>::empty());
                }
                r
            },
        }
    }

    /// Return the `type` field, if it is a string.
    pub fn schema_type(&self) -> (r: Option<String>)
        ensures
            opt_str_view(r) == spec_schema_type(*self.root, *self.schema),
    {
        match self.resolved().get("type") {
            Some(t) => match t {
                JsonValue::Text(s) => Some(s.clone()),
                _ => None,
            },
            None => None,
        }
    }
}

} // verus!
