//! A JSON document modelled with plain data. Numbers keep their literal JSON
//! text, so no floating point enters the model and rendering a value back to
//! JSON text is exact.

use vstd::prelude::*;

verus! {

use vstd::string::StrSliceExecFns;
use vstd::string::StringExecFns;

/// A JSON value. `Number` holds the number's JSON text; `Object` keeps its
/// members in document order.
#[derive(Debug)]
#[verifier::ext_equal]
pub enum JsonValue {
    Null,
    Bool(bool),
    Number(String),
    Text(String),
    Array(Vec<JsonValue>),
    Object(Vec<JsonMember>),
}

/// One `key: value` member of a JSON object.
#[derive(Debug)]
#[verifier::ext_equal]
pub struct JsonMember {
    pub key: String,
    pub value: JsonValue,
}

/// First member with the given key, in member order.
pub open spec fn spec_obj_get(ms: Seq<JsonMember>, key: Seq<char>) -> Option<JsonValue>
    decreases ms.len(),
{
    if ms.len() == 0 {
        None
    } else if ms[0].key@ == key {
        Some(ms[0].value)
    } else {
        spec_obj_get(ms.drop_first(), key)
    }
}

/// Key lookup: the first member with that key of an object; `None` on any
/// other kind of value.
pub open spec fn spec_get(v: JsonValue, key: Seq<char>) -> Option<JsonValue> {
    match v {
        JsonValue::Object(ms) => spec_obj_get(ms@, key),
        _ => None,
    }
}

impl JsonValue {
    pub open spec fn spec_is_object(&self) -> bool {
        self is Object
    }

    /// Look a key up in an object; `None` for any other kind of value.
    pub fn get<'a>(&'a self, key: &str) -> (r: Option<&'a JsonValue>)
        ensures
            match r {
                Some(v) => spec_get(*self, key@) == Some(*v),
                None => spec_get(*self, key@) is None,
            },
    {
        let ks: String = key.to_owned();
        match self {
            JsonValue::Object(ms) => match obj_find(ms, &ks) {
                Some(i) => Some(&ms[i].value),
                None => None,
            },
            _ => None,
        }
    }

    pub fn is_object(&self) -> (b: bool)
        ensures
            b == self.spec_is_object(),
    {
        match self {
            JsonValue::Object(_) => true,
            _ => false,
        }
    }
}

/// Index of the first member with the given key.
pub fn obj_find(ms: &Vec<JsonMember>, key: &String) -> (r: Option<usize>)
    ensures
        match r {
            Some(i) => i < ms@.len() && spec_obj_get(ms@, key@) == Some(ms@[i as int].value),
            None => spec_obj_get(ms@, key@) is None,
        },
{
    let mut i: usize = 0;
    proof {
        assert(ms@.skip(0) =~= ms@);
    }
    while i < ms.len()
        invariant
            i <= ms@.len(),
            spec_obj_get(ms@, key@) == spec_obj_get(ms@.skip(i as int), key@),
        decreases ms@.len() - i,
    {
        proof {
            assert(ms@.skip(i as int)[0] == ms@[i as int]);
            assert(ms@.skip(i as int).drop_first() =~= ms@.skip(i + 1));
        }
        if ms[i].key == *key {
            return Some(i);
        }
        i = i + 1;
    }
    None
}

/// The characters of a string slice as a vector.
pub fn str_chars(s: &str) -> (r: Vec<char>)
    ensures
        r@ == s@,
{
    let n = s.unicode_len();
    let mut r: Vec<char> = Vec::new();
    let mut i: usize = 0;
    while i < n
        invariant
            i <= n,
            n == s@.len(),
            r@ == s@.subrange(0, i as int),
        decreases n - i,
    {
        r.push(s.get_char(i));
        proof {
            assert(r@ =~= s@.subrange(0, i + 1));
        }
        i = i + 1;
    }
    proof {
        assert(r@ =~= s@);
    }
    r
}

/// A string holding exactly the given characters.
pub fn chars_string(v: &Vec<char>) -> (r: String)
    ensures
        r@ == v@,
{
    let mut r = String::new();
    let mut i: usize = 0;
    while i < v.len()
        invariant
            i <= v@.len(),
            r@ == v@.subrange(0, i as int),
        decreases v@.len() - i,
    {
        crate::position::push_char(&mut r, v[i]);
        proof {
            assert(r@ =~= v@.subrange(0, i + 1));
        }
        i = i + 1;
    }
    proof {
        assert(r@ =~= v@);
    }
    r
}

/// Structural equivalence of two values: same shape, equal texts. This is
/// the observable identity of a value.
pub open spec fn json_eq(a: JsonValue, b: JsonValue) -> bool
    decreases a, 1int, 0int,
{
    match a {
        JsonValue::Null => b is Null,
        JsonValue::Bool(x) => b matches JsonValue::Bool(y) && x == spec_bool_of(b),
        JsonValue::Number(s) => b matches JsonValue::Number(t) && s@ == spec_text_of(b),
        JsonValue::Text(s) => b matches JsonValue::Text(t) && s@ == spec_text_of(b),
        JsonValue::Array(xs) => b matches JsonValue::Array(ys) && json_eq_list(xs, b),
        JsonValue::Object(ms) => b matches JsonValue::Object(ns) && json_eq_members(ms, b),
    }
}

pub open spec fn spec_bool_of(b: JsonValue) -> bool {
    match b {
        JsonValue::Bool(y) => y,
        _ => false,
    }
}

pub open spec fn spec_text_of(b: JsonValue) -> Seq<char> {
    match b {
        JsonValue::Number(t) => t@,
        JsonValue::Text(t) => t@,
        _ => Seq::<char>::empty(),
    }
}

pub open spec fn json_eq_list(xs: Vec<JsonValue>, b: JsonValue) -> bool
    decreases xs, 0int, 0int,
{
    match b {
        JsonValue::Array(ys) => xs@.len() == ys@.len() && (forall|i: int|
            0 <= i < xs@.len() ==> json_eq(#[trigger] xs@[i], ys@[i])),
        _ => false,
    }
}

pub open spec fn json_eq_members(ms: Vec<JsonMember>, b: JsonValue) -> bool
    decreases ms, 0int, 0int,
{
    match b {
        JsonValue::Object(ns) => ms@.len() == ns@.len() && (forall|i: int|
            0 <= i < ms@.len() ==> (#[trigger] ms@[i]).key@ == ns@[i].key@ && json_eq(
                ms@[i].value,
                ns@[i].value,
            )),
        _ => false,
    }
}

/// A structurally equivalent copy of a value.
pub fn clone_json(v: &JsonValue) -> (r: JsonValue)
    ensures
        json_eq(r, *v),
    decreases *v, 2int, 0int,
{
    match v {
        JsonValue::Null => JsonValue::Null,
        JsonValue::Bool(b) => JsonValue::Bool(*b),
        JsonValue::Number(t) => JsonValue::Number(t.clone()),
        JsonValue::Text(s) => JsonValue::Text(s.clone()),
        JsonValue::Array(xs) => {
            let c = clone_json_list(xs);
            JsonValue::Array(c)
        },
        JsonValue::Object(ms) => {
            let c = clone_json_members(ms);
            JsonValue::Object(c)
        },
    }
}

fn clone_json_list(xs: &Vec<JsonValue>) -> (r: Vec<JsonValue>)
    ensures
        r@.len() == xs@.len(),
        forall|k: int| 0 <= k < xs@.len() ==> json_eq(#[trigger] r@[k], xs@[k]),
    decreases *xs, 1int, 0int,
{
    let mut r: Vec<JsonValue> = Vec::new();
    let mut k: usize = 0;
    while k < xs.len()
        invariant
            k <= xs@.len(),
            r@.len() == k,
            forall|m: int| 0 <= m < k ==> json_eq(#[trigger] r@[m], xs@[m]),
        decreases xs@.len() - k,
    {
        r.push(clone_json_one(xs, k));
        k = k + 1;
    }
    r
}

fn clone_json_one(xs: &Vec<JsonValue>, i: usize) -> (r: JsonValue)
    requires
        i < xs@.len(),
    ensures
        json_eq(r, xs@[i as int]),
    decreases *xs, 0int, 0int,
{
    clone_json(&xs[i])
}

fn clone_json_members(ms: &Vec<JsonMember>) -> (r: Vec<JsonMember>)
    ensures
        r@.len() == ms@.len(),
        forall|k: int| 0 <= k < ms@.len() ==> (#[trigger] r@[k]).key@ == ms@[k].key@ && json_eq(
            r@[k].value,
            ms@[k].value,
        ),
    decreases *ms, 1int, 0int,
{
    let mut r: Vec<JsonMember> = Vec::new();
    let mut k: usize = 0;
    while k < ms.len()
        invariant
            k <= ms@.len(),
            r@.len() == k,
            forall|m: int| 0 <= m < k ==> (#[trigger] r@[m]).key@ == ms@[m].key@ && json_eq(
                r@[m].value,
                ms@[m].value,
            ),
        decreases ms@.len() - k,
    {
        let m = JsonMember { key: ms[k].key.clone(), value: clone_member_value(ms, k) };
        r.push(m);
        k = k + 1;
    }
    r
}

fn clone_member_value(ms: &Vec<JsonMember>, i: usize) -> (r: JsonValue)
    requires
        i < ms@.len(),
    ensures
        json_eq(r, ms@[i as int].value),
    decreases *ms, 0int, 0int,
{
    clone_json(&ms[i].value)
}

// ────────────────────────────────────────────────────────────
// JSON Pointer resolution
// ────────────────────────────────────────────────────────────

/// Position of the first `/` at or after `i`, or the end.
pub open spec fn spec_find_slash(t: Seq<char>, i: int) -> int
    decreases t.len() - i when 0 <= i <= t.len()
{
    if i >= t.len() {
        t.len() as int
    } else if t[i] == '/' {
        i
    } else {
        spec_find_slash(t, i + 1)
    }
}

pub proof fn lemma_find_slash_bounds(t: Seq<char>, i: int)
    requires
        0 <= i <= t.len(),
    ensures
        i <= spec_find_slash(t, i) <= t.len(),
    decreases t.len() - i,
{
    if i < t.len() && t[i] != '/' {
        lemma_find_slash_bounds(t, i + 1);
    }
}

/// Unescape the pointer token `t[i..j]`: `~1` stands for `/`, `~0` for `~`.
pub open spec fn spec_unescape_from(t: Seq<char>, i: int, j: int) -> Seq<char>
    decreases j - i when 0 <= i && j <= t.len()
{
    if i >= j {
        Seq::<char>::empty()
    } else if i + 1 < j && t[i] == '~' && t[i + 1] == '1' {
        seq!['/'] + spec_unescape_from(t, i + 2, j)
    } else if i + 1 < j && t[i] == '~' && t[i + 1] == '0' {
        seq!['~'] + spec_unescape_from(t, i + 2, j)
    } else {
        seq![t[i]] + spec_unescape_from(t, i + 1, j)
    }
}

/// Numeric value of a digit sequence.
pub open spec fn spec_digits_value(t: Seq<char>) -> int
    decreases t.len(),
{
    if t.len() == 0 {
        0
    } else {
        spec_digits_value(t.drop_last()) * 10 + (t.last() as int - '0' as int)
    }
}

/// Parse a pointer token as an array index: decimal digits only, with no
/// leading zero unless the token is exactly `0`.
pub open spec fn spec_parse_index(t: Seq<char>) -> Option<int> {
    if t.len() == 0 {
        None
    } else if t.len() > 1 && t[0] == '0' {
        None
    } else if forall|k: int| 0 <= k < t.len() ==> '0' <= #[trigger] t[k] <= '9' {
        Some(spec_digits_value(t))
    } else {
        None
    }
}

/// One pointer step: a key into an object, a parsed index into an array.
pub open spec fn spec_ptr_step(v: JsonValue, name: Seq<char>) -> Option<JsonValue> {
    match v {
        JsonValue::Object(ms) => spec_obj_get(ms@, name),
        JsonValue::Array(xs) => match spec_parse_index(name) {
            Some(i) => if 0 <= i < xs@.len() {
                Some(xs@[i])
            } else {
                None
            },
            None => None,
        },
        _ => None,
    }
}

/// Resolve the pointer tokens of `t[i..]`, where `i` points at the start of a
/// token.
pub open spec fn spec_resolve_from(v: JsonValue, t: Seq<char>, i: int) -> Option<JsonValue>
    decreases t.len() - i when 0 <= i <= t.len()
    via spec_resolve_from_dec
{
    let j = spec_find_slash(t, i);
    let name = spec_unescape_from(t, i, j);
    match spec_ptr_step(v, name) {
        None => None,
        Some(v2) => if j >= t.len() {
            Some(v2)
        } else {
            spec_resolve_from(v2, t, j + 1)
        },
    }
}

#[via_fn]
proof fn spec_resolve_from_dec(v: JsonValue, t: Seq<char>, i: int) {
    lemma_find_slash_bounds(t, i);
}

/// Apply a JSON Pointer to a value: the empty pointer names the value itself;
/// any other pointer must open with `/`.
pub open spec fn spec_pointer(v: JsonValue, t: Seq<char>) -> Option<JsonValue> {
    if t.len() == 0 {
        Some(v)
    } else if t[0] != '/' {
        None
    } else {
        spec_resolve_from(v, t, 1)
    }
}

/// A digit string's value only grows as digits are appended.
proof fn lemma_digits_value_prefix(t: Seq<char>, k: int)
    requires
        0 <= k <= t.len(),
        forall|m: int| 0 <= m < t.len() ==> '0' <= #[trigger] t[m] <= '9',
    ensures
        spec_digits_value(t) >= spec_digits_value(t.subrange(0, k)),
        spec_digits_value(t) >= 0,
    decreases t.len() - k,
{
    if k < t.len() {
        lemma_digits_value_prefix(t, k + 1);
        let a = t.subrange(0, k);
        let b = t.subrange(0, k + 1);
        assert(b.drop_last() =~= a);
        assert(b.last() == t[k]);
        assert(spec_digits_value(b) == spec_digits_value(a) * 10 + (t[k] as int - '0' as int));
        assert(spec_digits_value(a) >= 0 ==> spec_digits_value(b) >= spec_digits_value(a)) by {
            if spec_digits_value(a) >= 0 {
                assert(spec_digits_value(a) * 10 >= spec_digits_value(a)) by (nonlinear_arith)
                    requires spec_digits_value(a) >= 0;
            }
        }
        lemma_digits_value_nonneg(t, k);
    } else {
        assert(t.subrange(0, k) =~= t);
        lemma_digits_value_nonneg(t, t.len() as int);
    }
}

// ────────────────────────────────────────────────────────────
// Rendering a value back to JSON text
// ────────────────────────────────────────────────────────────

/// Hex digit (lower case) of `n`, for `0 <= n < 16`.
pub open spec fn spec_hex_digit(n: int) -> char {
    if n == 0 { '0' } else if n == 1 { '1' } else if n == 2 { '2' } else if n == 3 { '3' }
    else if n == 4 { '4' } else if n == 5 { '5' } else if n == 6 { '6' } else if n == 7 { '7' }
    else if n == 8 { '8' } else if n == 9 { '9' } else if n == 10 { 'a' } else if n == 11 { 'b' }
    else if n == 12 { 'c' } else if n == 13 { 'd' } else if n == 14 { 'e' } else { 'f' }
}

/// The escape of one character inside a JSON string: the named escapes for
/// quote, backslash and the common control characters, `\u00XX` for the other
/// control characters, the character itself otherwise.
pub open spec fn spec_escape_char(c: char) -> Seq<char> {
    if c == '"' {
        seq!['\\', '"']
    } else if c == '\\' {
        seq!['\\', '\\']
    } else if c == '\n' {
        seq!['\\', 'n']
    } else if c == '\r' {
        seq!['\\', 'r']
    } else if c == '\t' {
        seq!['\\', 't']
    } else if c as int == 8 {
        seq!['\\', 'b']
    } else if c as int == 12 {
        seq!['\\', 'f']
    } else if (c as int) < 32 {
        let hi = spec_hex_digit(c as int / 16);
        let lo = spec_hex_digit(c as int % 16);
        seq!['\\', 'u', '0', '0', hi, lo]
    } else {
        seq![c]
    }
}

/// The escaped form of `s[i..]`.
pub open spec fn spec_escape_from(s: Seq<char>, i: int) -> Seq<char>
    decreases s.len() - i when 0 <= i <= s.len()
{
    if i >= s.len() {
        Seq::<char>::empty()
    } else {
        spec_escape_char(s[i]) + spec_escape_from(s, i + 1)
    }
}

/// The compact JSON text of a value: no added whitespace, object members and
/// array elements in stored order, numbers as their stored literal text.
pub open spec fn spec_render(v: JsonValue) -> Seq<char>
    decreases v, 1int, 0int,
{
    match v {
        JsonValue::Null => "null"@,
        JsonValue::Bool(b) => if b {
            "true"@
        } else {
            "false"@
        },
        JsonValue::Number(t) => t@,
        JsonValue::Text(s) => seq!['"'] + spec_escape_from(s@, 0) + seq!['"'],
        JsonValue::Array(xs) => seq!['['] + spec_render_arr(xs, 0) + seq![']'],
        JsonValue::Object(ms) => seq!['{'] + spec_render_obj(ms, 0) + seq!['}'],
    }
}

/// The rendered elements of `xs[i..]`, comma separated.
pub open spec fn spec_render_arr(xs: Vec<JsonValue>, i: int) -> Seq<char>
    decreases xs, 0int, xs@.len() - i when 0 <= i <= xs@.len()
{
    if i >= xs@.len() {
        Seq::<char>::empty()
    } else {
        let head = spec_render(xs@[i]);
        if i + 1 == xs@.len() {
            head
        } else {
            head + seq![','] + spec_render_arr(xs, i + 1)
        }
    }
}

/// The rendered members of `ms[i..]`, comma separated, each as
/// `"key":value`.
pub open spec fn spec_render_obj(ms: Vec<JsonMember>, i: int) -> Seq<char>
    decreases ms, 0int, ms@.len() - i when 0 <= i <= ms@.len()
{
    if i >= ms@.len() {
        Seq::<char>::empty()
    } else {
        let head = seq!['"'] + spec_escape_from(ms@[i].key@, 0) + seq!['"', ':'] + spec_render(
            ms@[i].value,
        );
        if i + 1 == ms@.len() {
            head
        } else {
            head + seq![','] + spec_render_obj(ms, i + 1)
        }
    }
}

/// Hex digit (lower case) of `n`.
fn hex_digit(n: u32) -> (c: char)
    requires
        n < 16,
    ensures
        c == spec_hex_digit(n as int),
{
    if n == 0 { '0' } else if n == 1 { '1' } else if n == 2 { '2' } else if n == 3 { '3' }
    else if n == 4 { '4' } else if n == 5 { '5' } else if n == 6 { '6' } else if n == 7 { '7' }
    else if n == 8 { '8' } else if n == 9 { '9' } else if n == 10 { 'a' } else if n == 11 { 'b' }
    else if n == 12 { 'c' } else if n == 13 { 'd' } else if n == 14 { 'e' } else { 'f' }
}

/// Append the escaped form of `s` to `r`.
fn escape_into(r: &mut String, s: &str)
    ensures
        final(r)@ == old(r)@ + spec_escape_from(s@, 0),
{
    let n = s.unicode_len();
    let mut i: usize = 0;
    while i < n
        invariant
            i <= n,
            n == s@.len(),
            old(r)@ + spec_escape_from(s@, 0) == r@ + spec_escape_from(s@, i as int),
        decreases n - i,
    {
        let c = s.get_char(i);
        if c == '"' {
            push_two(r, '\\', '"');
        } else if c == '\\' {
            push_two(r, '\\', '\\');
        } else if c == '\n' {
            push_two(r, '\\', 'n');
        } else if c == '\r' {
            push_two(r, '\\', 'r');
        } else if c == '\t' {
            push_two(r, '\\', 't');
        } else if c as u32 == 8 {
            push_two(r, '\\', 'b');
        } else if c as u32 == 12 {
            push_two(r, '\\', 'f');
        } else if (c as u32) < 32 {
            push_two(r, '\\', 'u');
            push_two(r, '0', '0');
            push_two(r, hex_digit(c as u32 / 16), hex_digit(c as u32 % 16));
        } else {
            crate::position::push_char(r, c);
        }
        proof {
            assert(r@ + spec_escape_from(s@, i + 1) =~= old(r)@ + spec_escape_from(s@, 0));
        }
        i = i + 1;
    }
    proof {
        assert(r@ + spec_escape_from(s@, i as int) =~= r@);
    }
}

fn push_two(r: &mut String, a: char, b: char)
    ensures
        final(r)@ == old(r)@.push(a).push(b),
{
    crate::position::push_char(r, a);
    crate::position::push_char(r, b);
}

/// Render a value as compact JSON text.
pub fn render_json(v: &JsonValue) -> (r: String)
    ensures
        r@ == spec_render(*v),
    decreases *v, 1int, 0int,
{
    match v {
        JsonValue::Null => String::from_str("null"),
        JsonValue::Bool(b) => if *b {
            String::from_str("true")
        } else {
            String::from_str("false")
        },
        JsonValue::Number(t) => t.clone(),
        JsonValue::Text(s) => {
            let mut r = String::from_str("\"");
            proof {
                reveal_strlit("\"");
            }
            escape_into(&mut r, s.as_str());
            crate::position::push_char(&mut r, '"');
            proof {
                assert(r@ =~= seq!['"'] + spec_escape_from(s@, 0) + seq!['"']);
            }
            r
        },
        JsonValue::Array(xs) => {
            let mut r = String::from_str("[");
            proof {
                reveal_strlit("[");
            }
            let tail = render_arr_from(xs, 0);
            r.append(tail.as_str());
            crate::position::push_char(&mut r, ']');
            proof {
                assert(r@ =~= seq!['['] + spec_render_arr(*xs, 0) + seq![']']);
            }
            r
        },
        JsonValue::Object(ms) => {
            let mut r = String::from_str("{");
            proof {
                reveal_strlit("{");
            }
            let tail = render_obj_from(ms, 0);
            r.append(tail.as_str());
            crate::position::push_char(&mut r, '}');
            proof {
                assert(r@ =~= seq!['{'] + spec_render_obj(*ms, 0) + seq!['}']);
            }
            r
        },
    }
}

fn render_arr_from(xs: &Vec<JsonValue>, i: usize) -> (r: String)
    requires
        i <= xs@.len(),
    ensures
        r@ == spec_render_arr(*xs, i as int),
    decreases *xs, 0int, xs@.len() - i,
{
    if i >= xs.len() {
        let r = String::new();
        return r;
    }
    let mut r = render_json(&xs[i]);
    if i + 1 < xs.len() {
        crate::position::push_char(&mut r, ',');
        let rest = render_arr_from(xs, i + 1);
        r.append(rest.as_str());
        proof {
            assert(r@ =~= spec_render(xs@[i as int]) + seq![','] + spec_render_arr(*xs, i + 1));
        }
    }
    r
}

fn render_obj_from(ms: &Vec<JsonMember>, i: usize) -> (r: String)
    requires
        i <= ms@.len(),
    ensures
        r@ == spec_render_obj(*ms, i as int),
    decreases *ms, 0int, ms@.len() - i,
{
    if i >= ms.len() {
        let r = String::new();
        return r;
    }
    let mut r = String::from_str("\"");
    proof {
        reveal_strlit("\"");
    }
    escape_into(&mut r, ms[i].key.as_str());
    push_two(&mut r, '"', ':');
    let val = render_json(&ms[i].value);
    r.append(val.as_str());
    proof {
        assert(r@ =~= seq!['"'] + spec_escape_from(ms@[i as int].key@, 0) + seq!['"', ':']
            + spec_render(ms@[i as int].value));
    }
    if i + 1 < ms.len() {
        crate::position::push_char(&mut r, ',');
        let rest = render_obj_from(ms, i + 1);
        r.append(rest.as_str());
        proof {
            assert(r@ =~= (seq!['"'] + spec_escape_from(ms@[i as int].key@, 0) + seq!['"', ':']
                + spec_render(ms@[i as int].value)) + seq![','] + spec_render_obj(*ms, i + 1));
        }
    }
    r
}

/// Unescape the pointer token `t[i..j]`.
fn unescape_range(t: &Vec<char>, i: usize, j: usize) -> (r: Vec<char>)
    requires
        i <= j <= t@.len(),
    ensures
        r@ == spec_unescape_from(t@, i as int, j as int),
{
    let mut r: Vec<char> = Vec::new();
    let mut k = i;
    while k < j
        invariant
            i <= k <= j <= t@.len(),
            spec_unescape_from(t@, i as int, j as int) == r@ + spec_unescape_from(
                t@,
                k as int,
                j as int,
            ),
        decreases j - k,
    {
        if k + 1 < j && t[k] == '~' && t[k + 1] == '1' {
            r.push('/');
            proof {
                assert(r@ + spec_unescape_from(t@, k + 2, j as int) =~= r@.drop_last() + (seq!['/']
                    + spec_unescape_from(t@, k + 2, j as int)));
            }
            k = k + 2;
        } else if k + 1 < j && t[k] == '~' && t[k + 1] == '0' {
            r.push('~');
            proof {
                assert(r@ + spec_unescape_from(t@, k + 2, j as int) =~= r@.drop_last() + (seq!['~']
                    + spec_unescape_from(t@, k + 2, j as int)));
            }
            k = k + 2;
        } else {
            r.push(t[k]);
            proof {
                assert(r@ + spec_unescape_from(t@, k + 1, j as int) =~= r@.drop_last() + (seq![
                    t@[k as int],
                ] + spec_unescape_from(t@, k + 1, j as int)));
            }
            k = k + 1;
        }
    }
    proof {
        assert(r@ + spec_unescape_from(t@, k as int, j as int) =~= r@);
    }
    r
}

/// Parse an array-index token; `None` also when the value does not fit the
/// machine (such an index is out of range of any array in memory).
fn parse_index(name: &Vec<char>) -> (r: Option<usize>)
    ensures
        match r {
            Some(u) => spec_parse_index(name@) == Some(u as int),
            None => match spec_parse_index(name@) {
                Some(v) => v > usize::MAX as int,
                None => true,
            },
        },
{
    if name.len() == 0 {
        return None;
    }
    if name.len() > 1 && name[0] == '0' {
        return None;
    }
    let mut acc: usize = 0;
    let mut i: usize = 0;
    proof {
        assert(name@.subrange(0, 0) =~= Seq::<char>::empty());
    }
    while i < name.len()
        invariant
            i <= name@.len(),
            name@.len() > 0,
            !(name@.len() > 1 && name@[0] == '0'),
            acc as int == spec_digits_value(name@.subrange(0, i as int)),
            forall|k: int| 0 <= k < i ==> '0' <= #[trigger] name@[k] <= '9',
        decreases name@.len() - i,
    {
        let c = name[i];
        if !(c >= '0' && c <= '9') {
            proof {
                assert(!('0' <= name@[i as int] <= '9'));
            }
            return None;
        }
        let d: usize = ((c as u32) - 48) as usize;
        if acc > (usize::MAX - d) / 10 {
            // The index would not fit; no array can be that long.
            proof {
                lemma_digits_big(name@, i as int, acc as int, d as int);
            }
            return None;
        }
        proof {
            assert(acc * 10 + d <= usize::MAX) by (nonlinear_arith)
                requires
                    acc <= (usize::MAX - d) / 10,
                    0 <= d <= 9,
                    acc >= 0,
            ;
            let a = name@.subrange(0, i as int);
            let b = name@.subrange(0, i + 1);
            assert(b.drop_last() =~= a);
        }
        acc = acc * 10 + d;
        i = i + 1;
    }
    proof {
        assert(name@.subrange(0, i as int) =~= name@);
    }
    Some(acc)
}

/// When the next digit would push the accumulator past `usize::MAX`, the full
/// token's value lies past it too.
proof fn lemma_digits_big(t: Seq<char>, i: int, acc: int, d: int)
    requires
        0 <= i < t.len(),
        forall|k: int| 0 <= k < i ==> '0' <= #[trigger] t[k] <= '9',
        '0' <= t[i] <= '9',
        acc == spec_digits_value(t.subrange(0, i)),
        d == t[i] as int - '0' as int,
        acc > (usize::MAX as int - d) / 10,
        acc >= 0,
    ensures
        match spec_parse_index(t) {
            Some(v) => v > usize::MAX as int,
            None => true,
        },
{
    if spec_parse_index(t) is Some {
        assert(forall|k: int| 0 <= k < t.len() ==> '0' <= #[trigger] t[k] <= '9');
        let b = t.subrange(0, i + 1);
        assert(b.drop_last() =~= t.subrange(0, i));
        assert(b.last() == t[i]);
        assert(spec_digits_value(b) == acc * 10 + d);
        assert(acc * 10 + d > usize::MAX as int) by (nonlinear_arith)
            requires
                acc > (usize::MAX as int - d) / 10,
                0 <= d <= 9,
                acc >= 0,
        ;
        lemma_digits_value_prefix(t, i + 1);
        assert(spec_digits_value(t) >= spec_digits_value(b));
    }
}

/// Resolve the pointer tokens of `t[i..]` against `v`.
fn resolve_from<'a>(v: &'a JsonValue, t: &Vec<char>, i: usize) -> (r: Option<&'a JsonValue>)
    requires
        i <= t@.len(),
    ensures
        match r {
            Some(x) => spec_resolve_from(*v, t@, i as int) == Some(*x),
            None => spec_resolve_from(*v, t@, i as int) is None,
        },
    decreases t@.len() - i,
{
    let mut j = i;
    while j < t.len() && t[j] != '/'
        invariant
            i <= j <= t@.len(),
            spec_find_slash(t@, i as int) == spec_find_slash(t@, j as int),
        decreases t@.len() - j,
    {
        j = j + 1;
    }
    let name = unescape_range(t, i, j);
    let stepped: Option<&'a JsonValue> = match v {
        JsonValue::Object(ms) => {
            let ks = chars_string(&name);
            match obj_find(ms, &ks) {
                Some(k) => Some(&ms[k].value),
                None => None,
            }
        },
        JsonValue::Array(xs) => {
            let n = xs.len();
            match parse_index(&name) {
                Some(u) => if u < n {
                    Some(&xs[u])
                } else {
                    None
                },
                None => None,
            }
        },
        _ => None,
    };
    match stepped {
        None => None,
        Some(v2) => if j >= t.len() {
            Some(v2)
        } else {
            resolve_from(v2, t, j + 1)
        },
    }
}

/// Apply a JSON Pointer (already stripped of any `#`) to a value.
pub fn json_pointer<'a>(v: &'a JsonValue, fragment: &str) -> (r: Option<&'a JsonValue>)
    ensures
        match r {
            Some(x) => spec_pointer(*v, fragment@) == Some(*x),
            None => spec_pointer(*v, fragment@) is None,
        },
{
    let t = str_chars(fragment);
    if t.len() == 0 {
        return Some(v);
    }
    if t[0] != '/' {
        return None;
    }
    resolve_from(v, &t, 1)
}

proof fn lemma_digits_value_nonneg(t: Seq<char>, k: int)
    requires
        0 <= k <= t.len(),
        forall|m: int| 0 <= m < t.len() ==> '0' <= #[trigger] t[m] <= '9',
    ensures
        spec_digits_value(t.subrange(0, k)) >= 0,
    decreases k,
{
    if k > 0 {
        lemma_digits_value_nonneg(t, k - 1);
        let a = t.subrange(0, k);
        assert(a.drop_last() =~= t.subrange(0, k - 1));
        assert(spec_digits_value(t.subrange(0, k - 1)) * 10 >= 0) by (nonlinear_arith)
            requires spec_digits_value(t.subrange(0, k - 1)) >= 0;
    } else {
        assert(t.subrange(0, 0) =~= Seq::<char>::empty());
    }
}

} // verus!
