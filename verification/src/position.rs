//! Position classifier: maps an LSP position (line, UTF-16 column) inside a
//! possibly mid-edit JSON buffer to a semantic context and JSON path.

use vstd::prelude::*;

verus! {

use vstd::string::StringSliceAdditionalSpecFns;
use vstd::string::StrSliceExecFns;

/// Ghost counterpart of a path segment: a key as a character sequence or an
/// array index.
pub enum SpecSeg {
    Key(Seq<char>),
    Index(int),
}

/// Ghost counterpart of a position context.
pub enum SpecCtx {
    Key(Seq<SpecSeg>),
    KeyStart(Seq<SpecSeg>),
    Value(Seq<SpecSeg>),
    ValueStart(Seq<SpecSeg>),
    Unknown,
}

/// A segment in a JSON path.
#[derive(Debug, Clone, PartialEq, Eq)]
pub enum PathSegment {
    Key(String),
    Index(usize),
}

/// The semantic context of the cursor position within a JSON document.
#[derive(Debug, Clone, PartialEq, Eq)]
pub enum PositionContext {
    /// Cursor is on/in a key string. `path` is the full path to this key.
    Key { path: Vec<PathSegment> },
    /// Cursor is just at the start of a key (at the opening quote).
    KeyStart { path: Vec<PathSegment> },
    /// Cursor is inside a value at `path`.
    Value { path: Vec<PathSegment> },
    /// Cursor is at the start position of a value (between `:` and the value).
    ValueStart { path: Vec<PathSegment> },
    /// Position could not be classified.
    Unknown,
}

impl View for PathSegment {
    type V = SpecSeg;

    open spec fn view(&self) -> SpecSeg {
        match self {
            PathSegment::Key(k) => SpecSeg::Key(k@),
            PathSegment::Index(i) => SpecSeg::Index(*i as int),
        }
    }
}

/// The ghost image of a path: each segment replaced by its ghost counterpart.
pub open spec fn segs_view(v: Seq<PathSegment>) -> Seq<SpecSeg> {
    v.map_values(|s: PathSegment| s@)
}

impl View for PositionContext {
    type V = SpecCtx;

    open spec fn view(&self) -> SpecCtx {
        match self {
            PositionContext::Key { path } => SpecCtx::Key(segs_view(path@)),
            PositionContext::KeyStart { path } => SpecCtx::KeyStart(segs_view(path@)),
            PositionContext::Value { path } => SpecCtx::Value(segs_view(path@)),
            PositionContext::ValueStart { path } => SpecCtx::ValueStart(segs_view(path@)),
            PositionContext::Unknown => SpecCtx::Unknown,
        }
    }
}

impl PositionContext {
    /// The JSON path a context refers to; the empty path for `Unknown`.
    pub open spec fn spec_path(&self) -> Seq<PathSegment> {
        match self {
            PositionContext::Key { path } => path@,
            PositionContext::KeyStart { path } => path@,
            PositionContext::Value { path } => path@,
            PositionContext::ValueStart { path } => path@,
            PositionContext::Unknown => Seq::empty(),
        }
    }
}

fn clone_segment(s: &PathSegment) -> (r: PathSegment)
    ensures
        r == s,
{
    match s {
        PathSegment::Key(k) => PathSegment::Key(k.clone()),
        PathSegment::Index(i) => PathSegment::Index(*i),
    }
}

fn clone_segments(v: &Vec<PathSegment>) -> (r: Vec<PathSegment>)
    ensures
        r@ == v@,
{
    let mut r: Vec<PathSegment> = Vec::new();
    let mut i: usize = 0;
    while i < v.len()
        invariant
            i <= v.len(),
            r@ == v@.subrange(0, i as int),
        decreases v.len() - i,
    {
        r.push(clone_segment(&v[i]));
        proof {
            assert(r@ =~= v@.subrange(0, i + 1 as int));
        }
        i = i + 1;
    }
    proof {
        assert(r@ =~= v@);
    }
    r
}

impl PositionContext {
    /// Return the JSON path this context refers to.
    pub fn path(&self) -> (r: Vec<PathSegment>)
        ensures
            r@ == self.spec_path(),
    {
        match self {
            PositionContext::Key { path } => clone_segments(path),
            PositionContext::KeyStart { path } => clone_segments(path),
            PositionContext::Value { path } => clone_segments(path),
            PositionContext::ValueStart { path } => clone_segments(path),
            PositionContext::Unknown => Vec::new(),
        }
    }
}

// ────────────────────────────────────────────────────────────
// Byte-level helpers, as spec functions
// ────────────────────────────────────────────────────────────

/// JSON insignificant whitespace: space, tab, carriage return, line feed.
pub open spec fn is_ws(b: u8) -> bool {
    b == 32u8 || b == 9u8 || b == 13u8 || b == 10u8
}

/// A byte that terminates a bare literal (number, `true`, `false`, `null`).
pub open spec fn is_lit_end(b: u8) -> bool {
    b == 44u8 || b == 125u8 || b == 93u8 || is_ws(b)
}

/// Number of bytes of the UTF-8 sequence that starts with lead byte `b`
/// (1 for a continuation byte, which never starts a scalar in valid UTF-8).
pub open spec fn char_step(b: u8) -> int {
    if b < 0xC0u8 {
        1
    } else if b < 0xE0u8 {
        2
    } else if b < 0xF0u8 {
        3
    } else {
        4
    }
}

/// UTF-16 code units of the scalar whose UTF-8 lead byte is `b`: scalars of
/// one to three UTF-8 bytes are one unit, four-byte scalars are a surrogate
/// pair of two units.
pub open spec fn utf16_width(b: u8) -> int {
    if b >= 0xF0u8 {
        2
    } else {
        1
    }
}

/// `x` clamped into `[lo, hi]`.
pub open spec fn clampi(x: int, lo: int, hi: int) -> int {
    if x < lo {
        lo
    } else if x > hi {
        hi
    } else {
        x
    }
}

/// First position at or after `p` holding a non-whitespace byte (or the end).
pub open spec fn spec_skip_ws(s: Seq<u8>, p: int) -> int
    decreases s.len() - p when 0 <= p <= s.len()
{
    if p >= s.len() {
        p
    } else if is_ws(s[p]) {
        spec_skip_ws(s, p + 1)
    } else {
        p
    }
}

/// First position at or after `p` holding a literal terminator (or the end).
pub open spec fn spec_skip_literal(s: Seq<u8>, p: int) -> int
    decreases s.len() - p when 0 <= p <= s.len()
{
    if p >= s.len() {
        p
    } else if is_lit_end(s[p]) {
        p
    } else {
        spec_skip_literal(s, p + 1)
    }
}

/// Scan the body of a quoted string from `p` (just past the opening quote):
/// the position after the closing quote (or the end of input) and the decoded
/// content. The escapes `\" \\ \/ \n \r \t` are decoded; a `\uXXXX` escape
/// stands as the placeholder `?`; any other escaped byte stands for itself.
pub open spec fn spec_scan_string_body(s: Seq<u8>, p: int) -> (int, Seq<char>)
    decreases s.len() - p when 0 <= p <= s.len()
{
    if p >= s.len() {
        (p, Seq::<char>::empty())
    } else if s[p] == 34u8 {
        (p + 1, Seq::<char>::empty())
    } else if s[p] == 92u8 {
        if p + 1 >= s.len() {
            (p + 1, Seq::<char>::empty())
        } else {
            let e = s[p + 1];
            if e == 117u8 {
                let q = if p + 6 <= s.len() { p + 6 } else { s.len() as int };
                let r = spec_scan_string_body(s, q);
                (r.0, seq!['?'] + r.1)
            } else {
                let c = if e == 34u8 {
                    '"'
                } else if e == 92u8 {
                    '\\'
                } else if e == 47u8 {
                    '/'
                } else if e == 110u8 {
                    '\n'
                } else if e == 114u8 {
                    '\r'
                } else if e == 116u8 {
                    '\t'
                } else {
                    e as char
                };
                let r = spec_scan_string_body(s, p + 2);
                (r.0, seq![c] + r.1)
            }
        }
    } else {
        let r = spec_scan_string_body(s, p + 1);
        (r.0, seq![s[p] as char] + r.1)
    }
}

/// Scan a whole quoted string at `p`: if no opening quote stands there the
/// scan consumes nothing and yields the empty content.
pub open spec fn spec_scan_string(s: Seq<u8>, p: int) -> (int, Seq<char>) {
    if 0 <= p < s.len() && s[p] == 34u8 {
        spec_scan_string_body(s, p + 1)
    } else {
        (p, Seq::<char>::empty())
    }
}

pub proof fn lemma_skip_ws_bounds(s: Seq<u8>, p: int)
    requires
        0 <= p <= s.len(),
    ensures
        p <= spec_skip_ws(s, p) <= s.len(),
    decreases s.len() - p,
{
    if p < s.len() && is_ws(s[p]) {
        lemma_skip_ws_bounds(s, p + 1);
    }
}


pub proof fn lemma_scan_string_body_bounds(s: Seq<u8>, p: int)
    requires
        0 <= p <= s.len(),
    ensures
        p <= spec_scan_string_body(s, p).0 <= s.len(),
    decreases s.len() - p,
{
    if p >= s.len() {
    } else if s[p] == 34u8 {
    } else if s[p] == 92u8 {
        if p + 1 >= s.len() {
        } else if s[p + 1] == 117u8 {
            let q = if p + 6 <= s.len() { p + 6 } else { s.len() as int };
            lemma_scan_string_body_bounds(s, q);
        } else {
            lemma_scan_string_body_bounds(s, p + 2);
        }
    } else {
        lemma_scan_string_body_bounds(s, p + 1);
    }
}

/// Bounds of a whole string scan: it never moves backwards, consumes at least
/// the opening quote when one stands at `p`, and stays within the input.
pub proof fn lemma_scan_string_bounds(s: Seq<u8>, p: int)
    requires
        0 <= p <= s.len(),
    ensures
        p <= spec_scan_string(s, p).0 <= s.len(),
        p < s.len() && s[p] == 34u8 ==> p + 1 <= spec_scan_string(s, p).0,
{
    if p < s.len() && s[p] == 34u8 {
        lemma_scan_string_body_bounds(s, p + 1);
    }
}

// ────────────────────────────────────────────────────────────
// UTF-16 locator
// ────────────────────────────────────────────────────────────

/// Number of line feeds at or after `p`.
pub open spec fn spec_count_nl(s: Seq<u8>, p: int) -> nat
    decreases s.len() - p when 0 <= p <= s.len()
{
    if p >= s.len() {
        0
    } else {
        (if s[p] == 10u8 {
            1nat
        } else {
            0nat
        }) + spec_count_nl(s, p + 1)
    }
}

/// Position just after the `line`-th line feed at or after `p` (the start of
/// that line), clamped to the end of the input when fewer line feeds remain.
pub open spec fn spec_line_start(s: Seq<u8>, p: int, line: nat) -> int
    decreases s.len() - p when 0 <= p <= s.len()
{
    if line == 0 {
        p
    } else if p >= s.len() {
        s.len() as int
    } else if s[p] == 10u8 {
        spec_line_start(s, p + 1, (line - 1) as nat)
    } else {
        spec_line_start(s, p + 1, line)
    }
}

/// Walk scalars from `p` while fewer than `character` UTF-16 code units have
/// been consumed; the position where the walk stops.
pub open spec fn spec_utf16_walk(s: Seq<u8>, p: int, character: int) -> int
    decreases s.len() - p when 0 <= p <= s.len()
{
    if p >= s.len() {
        s.len() as int
    } else if character <= 0 {
        p
    } else {
        let q = p + char_step(s[p]);
        if q > s.len() {
            s.len() as int
        } else {
            spec_utf16_walk(s, q, character - utf16_width(s[p]))
        }
    }
}

/// Byte offset of an LSP position (zero-based line, UTF-16 column): locate the
/// start of `line`, then walk `character` UTF-16 code units. A line one past
/// the last maps to the end of a non-empty document; any further line does not
/// exist.
pub open spec fn spec_locate(s: Seq<u8>, line: int, character: int) -> Option<int> {
    let nl = spec_count_nl(s, 0);
    if 0 <= line <= nl {
        Some(spec_utf16_walk(s, spec_line_start(s, 0, line as nat), character))
    } else if line == nl + 1 && s.len() > 0 {
        Some(s.len() as int)
    } else {
        None
    }
}

pub proof fn lemma_line_start_bounds(s: Seq<u8>, p: int, line: nat)
    requires
        0 <= p <= s.len(),
    ensures
        p <= spec_line_start(s, p, line) <= s.len(),
    decreases s.len() - p,
{
    if line == 0 || p >= s.len() {
    } else if s[p] == 10u8 {
        lemma_line_start_bounds(s, p + 1, (line - 1) as nat);
    } else {
        lemma_line_start_bounds(s, p + 1, line);
    }
}


// ────────────────────────────────────────────────────────────
// Executable helpers
// ────────────────────────────────────────────────────────────

/// Relies on `String::push`: appends one character at the end of the string.
#[verifier::external_body]
pub(crate) fn push_char(s: &mut String, c: char)
    ensures
        final(s)@ == old(s)@.push(c),
{
    s.push(c);
}

/// Advance `pos` past JSON whitespace.
pub fn skip_whitespace(bytes: &Vec<u8>, pos: &mut usize)
    requires
        *old(pos) <= bytes@.len(),
    ensures
        *final(pos) == spec_skip_ws(bytes@, *old(pos) as int),
        *old(pos) <= *final(pos) <= bytes@.len(),
{
    let ghost p0 = *pos as int;
    while *pos < bytes.len() && (bytes[*pos] == 32u8 || bytes[*pos] == 9u8 || bytes[*pos] == 13u8
        || bytes[*pos] == 10u8)
        invariant
            p0 <= *pos <= bytes@.len(),
            spec_skip_ws(bytes@, p0) == spec_skip_ws(bytes@, *pos as int),
        decreases bytes@.len() - *pos,
    {
        *pos = *pos + 1;
    }
}

/// Skip over a literal (number, `true`, `false`, `null`).
pub fn skip_literal(bytes: &Vec<u8>, pos: &mut usize)
    requires
        *old(pos) <= bytes@.len(),
    ensures
        *final(pos) == spec_skip_literal(bytes@, *old(pos) as int),
        *old(pos) <= *final(pos) <= bytes@.len(),
{
    let ghost p0 = *pos as int;
    while *pos < bytes.len() && !(bytes[*pos] == 44u8 || bytes[*pos] == 125u8 || bytes[*pos]
        == 93u8 || bytes[*pos] == 32u8 || bytes[*pos] == 9u8 || bytes[*pos] == 13u8 || bytes[*pos]
        == 10u8)
        invariant
            p0 <= *pos <= bytes@.len(),
            spec_skip_literal(bytes@, p0) == spec_skip_literal(bytes@, *pos as int),
        decreases bytes@.len() - *pos,
    {
        *pos = *pos + 1;
    }
}

/// Consume a JSON string (including surrounding quotes), returning the decoded
/// content.
pub fn scan_string(bytes: &Vec<u8>, pos: &mut usize) -> (s: String)
    requires
        *old(pos) <= bytes@.len(),
    ensures
        *final(pos) == spec_scan_string(bytes@, *old(pos) as int).0,
        s@ == spec_scan_string(bytes@, *old(pos) as int).1,
        *old(pos) <= *final(pos) <= bytes@.len(),
{
    let mut s = String::new();
    if *pos >= bytes.len() || bytes[*pos] != 34u8 {
        return s;
    }
    let ghost start = *pos as int;
    *pos = *pos + 1;
    let mut fin: bool = false;
    while !fin && *pos < bytes.len()
        invariant
            start + 1 <= *pos <= bytes@.len(),
            !fin ==> {
                let r = spec_scan_string_body(bytes@, start + 1);
                let c = spec_scan_string_body(bytes@, *pos as int);
                r.0 == c.0 && r.1 == s@ + c.1
            },
            fin ==> *pos as int == spec_scan_string_body(bytes@, start + 1).0 && s@
                == spec_scan_string_body(bytes@, start + 1).1,
        decreases bytes@.len() - *pos + (if fin { 0int } else { 1int }),
    {
        let ghost pc = *pos as int;
        let ch = bytes[*pos];
        if ch == 34u8 {
            *pos = *pos + 1;
            fin = true;
            proof {
                assert(spec_scan_string_body(bytes@, pc) == (pc + 1, Seq::<char>::empty()));
                assert(s@ + Seq::<char>::empty() =~= s@);
            }
        } else if ch == 92u8 {
            if *pos + 1 >= bytes.len() {
                *pos = *pos + 1;
                proof {
                    assert(spec_scan_string_body(bytes@, pc) == (pc + 1, Seq::<char>::empty()));
                    assert(s@ + Seq::<char>::empty() =~= s@);
                }
                fin = true;
                proof {
                    assert(*pos as int == spec_scan_string_body(bytes@, start + 1).0);
                }
            } else {
                let e = bytes[*pos + 1];
                if e == 117u8 {
                    push_char(&mut s, '?');
                    if bytes.len() - *pos >= 6 {
                        *pos = *pos + 6;
                    } else {
                        *pos = bytes.len();
                    }
                    proof {
                        let c = spec_scan_string_body(bytes@, pc);
                        let n = spec_scan_string_body(bytes@, *pos as int);
                        assert(c.1 =~= seq!['?'] + n.1);
                        assert((s@ + n.1) =~= (s@.drop_last() + (seq!['?'] + n.1)));
                    }
                } else {
                    let c: char = if e == 34u8 {
                        '"'
                    } else if e == 92u8 {
                        '\\'
                    } else if e == 47u8 {
                        '/'
                    } else if e == 110u8 {
                        '\n'
                    } else if e == 114u8 {
                        '\r'
                    } else if e == 116u8 {
                        '\t'
                    } else {
                        e as char
                    };
                    push_char(&mut s, c);
                    *pos = *pos + 2;
                    proof {
                        let cc = spec_scan_string_body(bytes@, pc);
                        let n = spec_scan_string_body(bytes@, *pos as int);
                        assert(cc.1 =~= seq![c] + n.1);
                        assert((s@ + n.1) =~= (s@.drop_last() + (seq![c] + n.1)));
                    }
                }
            }
        } else {
            let c: char = ch as char;
            push_char(&mut s, c);
            *pos = *pos + 1;
            proof {
                let cc = spec_scan_string_body(bytes@, pc);
                let n = spec_scan_string_body(bytes@, *pos as int);
                assert(cc.1 =~= seq![c] + n.1);
                assert((s@ + n.1) =~= (s@.drop_last() + (seq![c] + n.1)));
            }
        }
    }
    proof {
        if !fin {
            assert(*pos as int == bytes@.len());
            assert(spec_scan_string_body(bytes@, *pos as int) == (
                *pos as int,
                Seq::<char>::empty(),
            ));
            assert(s@ + Seq::<char>::empty() =~= s@);
        }
    }
    s
}

/// Convert an LSP position (zero-based line plus UTF-16 column) to a byte
/// offset in `bytes`.
pub fn lsp_position_to_byte_offset(bytes: &Vec<u8>, line: u32, character: u32) -> (r: Option<
    usize,
>)
    ensures
        match r {
            Some(t) => spec_locate(bytes@, line as int, character as int) == Some(t as int) && t
                <= bytes@.len(),
            None => spec_locate(bytes@, line as int, character as int) is None,
        },
{
    let mut p: usize = 0;
    let mut rem: u32 = line;
    while rem > 0 && p < bytes.len()
        invariant
            0 <= p <= bytes@.len(),
            rem <= line,
            spec_line_start(bytes@, 0, line as nat) == spec_line_start(bytes@, p as int, rem as nat),
            spec_count_nl(bytes@, 0) == line - rem + spec_count_nl(bytes@, p as int),
        decreases bytes@.len() - p,
    {
        if bytes[p] == 10u8 {
            rem = rem - 1;
        }
        p = p + 1;
    }
    if rem > 0 {
        // The line-start scan ran out of input: fewer than `line` line feeds.
        proof {
            assert(spec_count_nl(bytes@, p as int) == 0);
            assert(spec_count_nl(bytes@, 0) == line - rem);
        }
        if rem == 1 && bytes.len() > 0 {
            return Some(bytes.len());
        }
        return None;
    }
    proof {
        assert(spec_count_nl(bytes@, 0) >= line - rem);
        assert(spec_line_start(bytes@, p as int, 0nat) == p as int);
    }
    // Walk UTF-16 code units from the line start.
    let mut q: usize = p;
    let mut units: i64 = character as i64;
    loop
        invariant
            0 <= p <= bytes@.len(),
            p <= q <= bytes@.len(),
            units <= character,
            line <= spec_count_nl(bytes@, 0),
            spec_line_start(bytes@, 0, line as nat) == p as int,
            spec_utf16_walk(bytes@, p as int, character as int) == spec_utf16_walk(
                bytes@,
                q as int,
                units as int,
            ),
        decreases bytes@.len() - q,
    {
        if q >= bytes.len() {
            return Some(bytes.len());
        }
        if units <= 0 {
            return Some(q);
        }
        let b = bytes[q];
        let step: usize = if b < 0xC0u8 {
            1
        } else if b < 0xE0u8 {
            2
        } else if b < 0xF0u8 {
            3
        } else {
            4
        };
        let width: i64 = if b >= 0xF0u8 {
            2
        } else {
            1
        };
        if bytes.len() - q < step {
            return Some(bytes.len());
        }
        q = q + step;
        units = units - width;
    }
}

// ────────────────────────────────────────────────────────────
// Exactness of the UTF-16 column arithmetic
// ────────────────────────────────────────────────────────────

/// Whether `b` is reachable from `a` by whole UTF-8 scalar steps.
pub open spec fn spec_char_boundary(s: Seq<u8>, a: int, b: int) -> bool
    decreases b - a when 0 <= a <= b
{
    if a >= b {
        a == b
    } else if a >= s.len() {
        false
    } else {
        let a2 = a + char_step(s[a]);
        if a2 > b {
            false
        } else {
            spec_char_boundary(s, a2, b)
        }
    }
}

/// UTF-16 code units of the scalars from `a` up to `b`.
pub open spec fn spec_utf16_units(s: Seq<u8>, a: int, b: int) -> int
    decreases b - a when 0 <= a <= b
{
    if a >= b || a >= s.len() {
        0
    } else {
        let a2 = a + char_step(s[a]);
        if a2 > b {
            utf16_width(s[a])
        } else {
            utf16_width(s[a]) + spec_utf16_units(s, a2, b)
        }
    }
}

pub proof fn lemma_units_nonneg(s: Seq<u8>, a: int, b: int)
    requires
        0 <= a <= b,
    ensures
        spec_utf16_units(s, a, b) >= 0,
    decreases b - a,
{
    if a < b && a < s.len() {
        let a2 = a + char_step(s[a]);
        if a2 <= b {
            lemma_units_nonneg(s, a2, b);
        }
    }
}

/// One more whole scalar keeps a position reachable and adds its width.
pub proof fn lemma_units_extend(s: Seq<u8>, a: int, b: int)
    requires
        0 <= a <= b < s.len(),
        spec_char_boundary(s, a, b),
        b + char_step(s[b]) <= s.len(),
    ensures
        spec_char_boundary(s, a, b + char_step(s[b])),
        spec_utf16_units(s, a, b + char_step(s[b])) == spec_utf16_units(s, a, b) + utf16_width(
            s[b],
        ),
    decreases b - a,
{
    if a == b {
        let b2 = b + char_step(s[b]);
        assert(spec_char_boundary(s, b2, b2));
        assert(spec_utf16_units(s, b2, b2) == 0);
    } else {
        let a2 = a + char_step(s[a]);
        lemma_units_extend(s, a2, b);
    }
}

/// The locator walk stops exactly at `p` when asked for exactly the code
/// units of the scalars before `p`.
pub proof fn lemma_walk_exact(s: Seq<u8>, start: int, p: int)
    requires
        0 <= start <= p <= s.len(),
        spec_char_boundary(s, start, p),
    ensures
        spec_utf16_walk(s, start, spec_utf16_units(s, start, p)) == p,
    decreases p - start,
{
    if start == p {
    } else {
        let a2 = start + char_step(s[start]);
        lemma_units_nonneg(s, a2, p);
        lemma_walk_exact(s, a2, p);
    }
}

/// UTF-16 column arithmetic is exact for surrogate pairs: on a line holding a
/// four-byte scalar (a surrogate pair in UTF-16) that starts at byte `q`, a
/// cursor whose column equals the code units up to and including that scalar
/// is located at the byte immediately after it.
pub proof fn lemma_surrogate_pair_column_exact(s: Seq<u8>, line: int, q: int)
    requires
        0 <= line <= spec_count_nl(s, 0),
        spec_line_start(s, 0, line as nat) <= q,
        spec_char_boundary(s, spec_line_start(s, 0, line as nat), q),
        q + 4 <= s.len(),
        s[q] >= 0xF0u8,
    ensures
        ({
            let start = spec_line_start(s, 0, line as nat);
            let units_before = spec_utf16_units(s, start, q);
            spec_locate(s, line, units_before + 2) == Some(q + 4)
        }),
{
    let start = spec_line_start(s, 0, line as nat);
    lemma_line_start_bounds(s, 0, line as nat);
    lemma_units_extend(s, start, q);
    assert(char_step(s[q]) == 4);
    assert(utf16_width(s[q]) == 2);
    lemma_walk_exact(s, start, q + 4);
}

// ────────────────────────────────────────────────────────────
// The tolerant scanner, as spec functions
// ────────────────────────────────────────────────────────────

/// Scan one JSON value at `p` (not inside whitespace): the position after the
/// value and the context claimed for `target`, `Unknown` when the target lies
/// elsewhere. `path` is the path of the value itself.
pub open spec fn spec_scan_value(s: Seq<u8>, p: int, path: Seq<SpecSeg>, target: int) -> (
    int,
    SpecCtx,
)
    decreases s.len() - p, 2int when 0 <= p <= s.len()
    via spec_scan_value_dec
{
    if p >= s.len() {
        (p, SpecCtx::Unknown)
    } else if s[p] == 123u8 {
        if target == p {
            (p, SpecCtx::ValueStart(path))
        } else {
            spec_scan_object(s, p, path, target)
        }
    } else if s[p] == 91u8 {
        if target == p {
            (p, SpecCtx::ValueStart(path))
        } else {
            spec_scan_array_items(s, p + 1, 0, path, target)
        }
    } else if s[p] == 34u8 {
        let e = spec_scan_string(s, p).0;
        if p <= target <= e {
            (e, SpecCtx::Value(path))
        } else {
            (e, SpecCtx::Unknown)
        }
    } else {
        let e = spec_skip_literal(s, p);
        if p <= target <= e {
            (e, SpecCtx::Value(path))
        } else {
            (e, SpecCtx::Unknown)
        }
    }
}

/// Scan the object whose opening brace stands at `p`.
pub open spec fn spec_scan_object(s: Seq<u8>, p: int, path: Seq<SpecSeg>, target: int) -> (
    int,
    SpecCtx,
)
    decreases s.len() - p, 1int when 0 <= p < s.len()
{
    spec_scan_object_items(s, p + 1, path, target)
}

/// Scan the members of an object from `p` (just past the opening brace or a
/// previous member).
pub open spec fn spec_scan_object_items(s: Seq<u8>, p: int, path: Seq<SpecSeg>, target: int) -> (
    int,
    SpecCtx,
)
    decreases s.len() - p, 0int when 0 <= p <= s.len()
    via spec_scan_object_items_dec
{
    let w = spec_skip_ws(s, p);
    if w >= s.len() {
        (w, SpecCtx::Unknown)
    } else if s[w] == 125u8 {
        (w + 1, SpecCtx::Unknown)
    } else if s[w] == 44u8 {
        spec_scan_object_items(s, w + 1, path, target)
    } else if s[w] == 34u8 {
        if target == w {
            (w, SpecCtx::KeyStart(path))
        } else {
            let se = spec_scan_string(s, w);
            let ke = se.0;
            if w < target <= ke {
                (ke, SpecCtx::Key(path.push(SpecSeg::Key(se.1))))
            } else {
                let w2 = spec_skip_ws(s, ke);
                if w2 >= s.len() {
                    (w2, SpecCtx::Unknown)
                } else {
                    let c = if s[w2] == 58u8 {
                        w2 + 1
                    } else {
                        w2 as int
                    };
                    let w3 = spec_skip_ws(s, c);
                    if w3 >= s.len() {
                        (w3, SpecCtx::Unknown)
                    } else if w < target <= w3 {
                        (w3, SpecCtx::ValueStart(path.push(SpecSeg::Key(se.1))))
                    } else {
                        let r = spec_scan_value(s, w3, path.push(SpecSeg::Key(se.1)), target);
                        if !(r.1 is Unknown) {
                            r
                        } else {
                            spec_scan_object_items(s, clampi(r.0, w3, s.len() as int), path, target)
                        }
                    }
                }
            }
        }
    } else {
        spec_scan_object_items(s, w + 1, path, target)
    }
}

/// Scan the elements of an array from `p` (just past the opening bracket or a
/// previous element); `idx` is the index of the next element.
pub open spec fn spec_scan_array_items(
    s: Seq<u8>,
    p: int,
    idx: int,
    path: Seq<SpecSeg>,
    target: int,
) -> (int, SpecCtx)
    decreases s.len() - p, 3int when 0 <= p <= s.len()
    via spec_scan_array_items_dec
{
    let w = spec_skip_ws(s, p);
    if w >= s.len() {
        (w, SpecCtx::Unknown)
    } else if s[w] == 93u8 {
        (w + 1, SpecCtx::Unknown)
    } else if s[w] == 44u8 {
        spec_scan_array_items(s, w + 1, idx + 1, path, target)
    } else if target == w {
        (w, SpecCtx::ValueStart(path.push(SpecSeg::Index(idx))))
    } else {
        let r = spec_scan_value(s, w, path.push(SpecSeg::Index(idx)), target);
        if !(r.1 is Unknown) {
            r
        } else {
            spec_scan_array_items(s, clampi(r.0, w + 1, s.len() as int), idx, path, target)
        }
    }
}

#[via_fn]
proof fn spec_scan_value_dec(s: Seq<u8>, p: int, path: Seq<SpecSeg>, target: int) {
}

#[via_fn]
proof fn spec_scan_object_items_dec(s: Seq<u8>, p: int, path: Seq<SpecSeg>, target: int) {
    lemma_skip_ws_bounds(s, p);
    let w = spec_skip_ws(s, p);
    if w < s.len() && s[w] == 34u8 {
        lemma_scan_string_bounds(s, w);
        let ke = spec_scan_string(s, w).0;
        lemma_skip_ws_bounds(s, ke);
        let w2 = spec_skip_ws(s, ke);
        if w2 < s.len() {
            let c = if s[w2] == 58u8 {
                w2 + 1
            } else {
                w2 as int
            };
            lemma_skip_ws_bounds(s, c);
        }
    }
}

#[via_fn]
proof fn spec_scan_array_items_dec(s: Seq<u8>, p: int, idx: int, path: Seq<SpecSeg>, target: int) {
    lemma_skip_ws_bounds(s, p);
}

/// Classify the target position of an LSP cursor in `s`: locate the byte
/// offset, then scan the top-level object. A document that does not open with
/// a brace, or a position outside the document, is `Unknown`.
pub open spec fn spec_classify(s: Seq<u8>, line: int, character: int) -> SpecCtx {
    match spec_locate(s, line, character) {
        Some(target) => {
            let w = spec_skip_ws(s, 0);
            if w >= s.len() || s[w] != 123u8 {
                SpecCtx::Unknown
            } else {
                spec_scan_object(s, w, Seq::<SpecSeg>::empty(), target).1
            }
        },
        None => SpecCtx::Unknown,
    }
}

// ────────────────────────────────────────────────────────────
// The tolerant scanner, executable
// ────────────────────────────────────────────────────────────

impl PositionContext {
    fn is_unknown(&self) -> (b: bool)
        ensures
            b == (self@ is Unknown),
    {
        match self {
            PositionContext::Unknown => true,
            _ => false,
        }
    }
}

proof fn lemma_segs_view_push(v: Seq<PathSegment>, x: PathSegment)
    ensures
        segs_view(v.push(x)) =~= segs_view(v).push(x@),
{
}

pub fn scan_value(
    bytes: &Vec<u8>,
    pos: usize,
    path: &mut Vec<PathSegment>,
    target: usize,
    result: &mut PositionContext,
) -> (e: usize)
    requires
        pos <= bytes@.len(),
        old(result)@ is Unknown,
    ensures
        ({
            let r = spec_scan_value(bytes@, pos as int, segs_view(old(path)@), target as int);
            e as int == r.0 && final(result)@ == r.1
        }),
        final(path)@ == old(path)@,
        pos <= e <= bytes@.len(),
    decreases bytes@.len() - pos, 2int,
{
    if pos >= bytes.len() {
        return pos;
    }
    let b = bytes[pos];
    if b == 123u8 {
        if target == pos {
            *result = PositionContext::ValueStart { path: clone_segments(path) };
            return pos;
        }
        scan_object(bytes, pos, path, target, result)
    } else if b == 91u8 {
        if target == pos {
            *result = PositionContext::ValueStart { path: clone_segments(path) };
            return pos;
        }
        scan_array_items(bytes, pos + 1, 0, path, target, result)
    } else if b == 34u8 {
        let mut p = pos;
        let _content = scan_string(bytes, &mut p);
        if target >= pos && target <= p {
            *result = PositionContext::Value { path: clone_segments(path) };
        }
        p
    } else {
        let mut p = pos;
        skip_literal(bytes, &mut p);
        if target >= pos && target <= p {
            *result = PositionContext::Value { path: clone_segments(path) };
        }
        p
    }
}

/// Scan the object whose opening brace stands at `pos`.
pub fn scan_object(
    bytes: &Vec<u8>,
    pos: usize,
    path: &mut Vec<PathSegment>,
    target: usize,
    result: &mut PositionContext,
) -> (e: usize)
    requires
        pos < bytes@.len(),
        old(result)@ is Unknown,
    ensures
        ({
            let r = spec_scan_object(bytes@, pos as int, segs_view(old(path)@), target as int);
            e as int == r.0 && final(result)@ == r.1
        }),
        final(path)@ == old(path)@,
        pos <= e <= bytes@.len(),
    decreases bytes@.len() - pos, 1int,
{
    let n = bytes.len();
    proof {
        assert(pos + 1 <= n);
    }
    scan_object_items(bytes, pos + 1, path, target, result)
}

fn scan_object_items(
    bytes: &Vec<u8>,
    pos: usize,
    path: &mut Vec<PathSegment>,
    target: usize,
    result: &mut PositionContext,
) -> (e: usize)
    requires
        pos <= bytes@.len(),
        old(result)@ is Unknown,
    ensures
        ({
            let r = spec_scan_object_items(bytes@, pos as int, segs_view(old(path)@), target as int);
            e as int == r.0 && final(result)@ == r.1
        }),
        final(path)@ == old(path)@,
        pos <= e <= bytes@.len(),
    decreases bytes@.len() - pos, 0int,
{
    let mut p = pos;
    skip_whitespace(bytes, &mut p);
    if p >= bytes.len() {
        return p;
    }
    let ch = bytes[p];
    if ch == 125u8 {
        return p + 1;
    }
    if ch == 44u8 {
        return scan_object_items(bytes, p + 1, path, target, result);
    }
    if ch == 34u8 {
        if target == p {
            *result = PositionContext::KeyStart { path: clone_segments(path) };
            return p;
        }
        let key_start = p;
        let mut q = p;
        proof {
            lemma_scan_string_bounds(bytes@, p as int);
        }
        let key = scan_string(bytes, &mut q);
        if target > key_start && target <= q {
            let mut key_path = clone_segments(path);
            proof {
                lemma_segs_view_push(path@, PathSegment::Key(key));
            }
            key_path.push(PathSegment::Key(key));
            *result = PositionContext::Key { path: key_path };
            return q;
        }
        skip_whitespace(bytes, &mut q);
        if q >= bytes.len() {
            return q;
        }
        if bytes[q] == 58u8 {
            q = q + 1;
        }
        skip_whitespace(bytes, &mut q);
        if q >= bytes.len() {
            return q;
        }
        if target > key_start && target <= q {
            let mut value_path = clone_segments(path);
            proof {
                lemma_segs_view_push(path@, PathSegment::Key(key));
            }
            value_path.push(PathSegment::Key(key));
            *result = PositionContext::ValueStart { path: value_path };
            return q;
        }
        proof {
            lemma_segs_view_push(path@, PathSegment::Key(key));
        }
        path.push(PathSegment::Key(key));
        let e = scan_value(bytes, q, path, target, result);
        path.pop();
        proof {
            assert(path@ =~= old(path)@);
        }
        if !result.is_unknown() {
            return e;
        }
        return scan_object_items(bytes, e, path, target, result);
    }
    scan_object_items(bytes, p + 1, path, target, result)
}

/// Scan the array whose opening bracket stands at `pos`.
pub fn scan_array(
    bytes: &Vec<u8>,
    pos: usize,
    path: &mut Vec<PathSegment>,
    target: usize,
    result: &mut PositionContext,
) -> (e: usize)
    requires
        pos < bytes@.len(),
        old(result)@ is Unknown,
    ensures
        ({
            let r = spec_scan_array_items(
                bytes@,
                pos + 1,
                0,
                segs_view(old(path)@),
                target as int,
            );
            e as int == r.0 && final(result)@ == r.1
        }),
        final(path)@ == old(path)@,
        pos <= e <= bytes@.len(),
    decreases bytes@.len() - pos, 4int,
{
    let n = bytes.len();
    proof {
        assert(pos + 1 <= n);
    }
    scan_array_items(bytes, pos + 1, 0, path, target, result)
}

fn scan_array_items(
    bytes: &Vec<u8>,
    pos: usize,
    idx: usize,
    path: &mut Vec<PathSegment>,
    target: usize,
    result: &mut PositionContext,
) -> (e: usize)
    requires
        pos <= bytes@.len(),
        idx <= pos,
        old(result)@ is Unknown,
    ensures
        ({
            let r = spec_scan_array_items(
                bytes@,
                pos as int,
                idx as int,
                segs_view(old(path)@),
                target as int,
            );
            e as int == r.0 && final(result)@ == r.1
        }),
        final(path)@ == old(path)@,
        pos <= e <= bytes@.len(),
    decreases bytes@.len() - pos, 3int,
{
    let mut p = pos;
    skip_whitespace(bytes, &mut p);
    if p >= bytes.len() {
        return p;
    }
    let ch = bytes[p];
    if ch == 93u8 {
        return p + 1;
    }
    if ch == 44u8 {
        return scan_array_items(bytes, p + 1, idx + 1, path, target, result);
    }
    if target == p {
        let mut value_path = clone_segments(path);
        proof {
            lemma_segs_view_push(path@, PathSegment::Index(idx));
        }
        value_path.push(PathSegment::Index(idx));
        *result = PositionContext::ValueStart { path: value_path };
        return p;
    }
    proof {
        lemma_segs_view_push(path@, PathSegment::Index(idx));
    }
    path.push(PathSegment::Index(idx));
    let e = scan_value(bytes, p, path, target, result);
    path.pop();
    proof {
        assert(path@ =~= old(path)@);
    }
    if !result.is_unknown() {
        return e;
    }
    let next = if e < p + 1 {
        p + 1
    } else {
        e
    };
    scan_array_items(bytes, next, idx, path, target, result)
}

/// Scan `text` and determine the JSON context at the given LSP position.
pub fn position_to_context(text: &str, line: u32, character: u32) -> (r: PositionContext)
    ensures
        r@ == spec_classify(text.spec_bytes(), line as int, character as int),
{
    let bytes: Vec<u8> = text.as_bytes_vec();
    let target = match lsp_position_to_byte_offset(&bytes, line, character) {
        Some(t) => t,
        None => {
            return PositionContext::Unknown;
        },
    };
    let mut pos: usize = 0;
    skip_whitespace(&bytes, &mut pos);
    if pos >= bytes.len() || bytes[pos] != 123u8 {
        return PositionContext::Unknown;
    }
    let mut path: Vec<PathSegment> = Vec::new();
    let mut result = PositionContext::Unknown;
    proof {
        assert(segs_view(path@) =~= Seq::<SpecSeg>::empty());
    }
    let _end = scan_object(&bytes, pos, &mut path, target, &mut result);
    result
}

} // verus!
