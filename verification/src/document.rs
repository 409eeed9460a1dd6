//! Document store: one entry per open URI, holding the text, a rope mirror of
//! it for incremental edits, the version, and the document's declared
//! `$schema` URL. Incremental edits are applied atomically: a failing change
//! leaves the store untouched.

use vstd::prelude::*;

verus! {

use vstd::string::StrSliceExecFns;
use vstd::string::StringExecFns;
use crate::json::str_chars;

/// An LSP position: zero-based line and UTF-16 column.
#[derive(Debug, Clone, Copy, PartialEq, Eq, Structural)]
pub struct LspPosition {
    pub line: u32,
    pub character: u32,
}

/// An LSP range, start to end.
#[derive(Debug, Clone, Copy, PartialEq, Eq, Structural)]
pub struct LspRange {
    pub start: LspPosition,
    pub end: LspPosition,
}

/// One text change of a `didChange` notification: a full replacement when
/// `range` is absent, else a splice of `text` over the range.
#[derive(Debug)]
pub struct TextChange {
    pub range: Option<LspRange>,
    pub text: String,
}

/// Why an edit was refused.
#[derive(Debug, Clone, Copy, PartialEq, Eq, Structural)]
pub enum DocError {
    NotFound,
    RangeOutOfBounds,
}

// ────────────────────────────────────────────────────────────
// The rope, behind trusted wrappers
// ────────────────────────────────────────────────────────────

#[verifier::external_type_specification]
#[verifier::external_body]
pub struct ExRope(ropey::Rope);

/// The characters a rope holds.
pub uninterp spec fn rope_chars(r: ropey::Rope) -> Seq<char>;

/// Relies on `ropey::Rope::from_str`: a rope holding exactly the text.
#[verifier::external_body]
fn rope_from_str(s: &str) -> (r: ropey::Rope)
    ensures
        rope_chars(r) == s@,
{
    ropey::Rope::from_str(s)
}

/// Relies on `ropey::Rope::clone`: an equal rope.
#[verifier::external_body]
fn rope_clone(r: &ropey::Rope) -> (c: ropey::Rope)
    ensures
        rope_chars(c) == rope_chars(*r),
{
    r.clone()
}

/// Relies on `ropey::Rope::remove` with a char range: the range is cut out.
#[verifier::external_body]
fn rope_remove(r: &mut ropey::Rope, start: usize, end: usize)
    requires
        start <= end <= rope_chars(*old(r)).len(),
    ensures
        rope_chars(*final(r)) == rope_chars(*old(r)).subrange(0, start as int) + rope_chars(
            *old(r),
        ).skip(end as int),
{
    r.remove(start..end);
}

/// Relies on `ropey::Rope::insert`: the text appears at the char index.
#[verifier::external_body]
fn rope_insert(r: &mut ropey::Rope, at: usize, text: &str)
    requires
        at <= rope_chars(*old(r)).len(),
    ensures
        rope_chars(*final(r)) == rope_chars(*old(r)).subrange(0, at as int) + text@ + rope_chars(
            *old(r),
        ).skip(at as int),
{
    r.insert(at, text);
}

/// Relies on ropey's `From<&Rope> for String`: the rope's text.
#[verifier::external_body]
fn rope_to_string(r: &ropey::Rope) -> (s: String)
    ensures
        s@ == rope_chars(*r),
{
    String::from(r)
}

// ────────────────────────────────────────────────────────────
// LSP position to char index, with snap-to-scalar-start
// ────────────────────────────────────────────────────────────

/// UTF-16 code units of one scalar.
pub open spec fn spec_utf16_len(c: char) -> int {
    if (c as u32) >= 0x10000 {
        2
    } else {
        1
    }
}

/// UTF-8 bytes of one scalar.
pub open spec fn spec_utf8_len(c: char) -> int {
    if (c as u32) < 0x80 {
        1
    } else if (c as u32) < 0x800 {
        2
    } else if (c as u32) < 0x10000 {
        3
    } else {
        4
    }
}

/// Line feeds at or after `p`.
pub open spec fn spec_count_nl_c(s: Seq<char>, p: int) -> nat
    decreases s.len() - p when 0 <= p <= s.len()
{
    if p >= s.len() {
        0
    } else {
        (if s[p] == '\n' {
            1nat
        } else {
            0nat
        }) + spec_count_nl_c(s, p + 1)
    }
}

/// Char index of the start of the `line`-th line at or after `p`, clamped to
/// the end.
pub open spec fn spec_line_start_c(s: Seq<char>, p: int, line: nat) -> int
    decreases s.len() - p when 0 <= p <= s.len()
{
    if line == 0 {
        p
    } else if p >= s.len() {
        s.len() as int
    } else if s[p] == '\n' {
        spec_line_start_c(s, p + 1, (line - 1) as nat)
    } else {
        spec_line_start_c(s, p + 1, line)
    }
}

/// Walk scalars from `p` (stopping at `stop`), consuming whole scalars while
/// their UTF-16 width fits in `remaining`: a column inside a surrogate pair
/// snaps back to the scalar's start.
pub open spec fn spec_snap_walk(s: Seq<char>, p: int, stop: int, remaining: int) -> int
    decreases stop - p when 0 <= p && stop <= s.len()
{
    if p >= stop {
        p
    } else if remaining < spec_utf16_len(s[p]) {
        p
    } else {
        spec_snap_walk(s, p + 1, stop, remaining - spec_utf16_len(s[p]))
    }
}

/// An LSP position as a char index: the line must exist (ropey counts one
/// line more than there are line feeds); the column walks UTF-16 units within
/// the line, its trailing line feed included, snapping inside a surrogate
/// pair.
pub open spec fn spec_pos_to_char_idx(s: Seq<char>, line: int, character: int) -> Option<int> {
    let nl = spec_count_nl_c(s, 0);
    if line < 0 || line > nl {
        None
    } else {
        let st = spec_line_start_c(s, 0, line as nat);
        let en = spec_line_start_c(s, 0, (line + 1) as nat);
        Some(spec_snap_walk(s, st, en, character))
    }
}

pub proof fn lemma_line_start_c_bounds(s: Seq<char>, p: int, line: nat)
    requires
        0 <= p <= s.len(),
    ensures
        p <= spec_line_start_c(s, p, line) <= s.len(),
    decreases s.len() - p,
{
    if line == 0 || p >= s.len() {
    } else if s[p] == '\n' {
        lemma_line_start_c_bounds(s, p + 1, (line - 1) as nat);
    } else {
        lemma_line_start_c_bounds(s, p + 1, line);
    }
}

/// Convert an LSP position (zero-based line plus UTF-16 column) to a char
/// index in `text`.
pub fn lsp_pos_to_char_idx(text: &String, pos: LspPosition) -> (r: Result<usize, DocError>)
    ensures
        match r {
            Ok(i) => spec_pos_to_char_idx(text@, pos.line as int, pos.character as int) == Some(
                i as int,
            ) && i <= text@.len(),
            Err(e) => e == DocError::RangeOutOfBounds && spec_pos_to_char_idx(
                text@,
                pos.line as int,
                pos.character as int,
            ) is None,
        },
{
    let cs = str_chars(text.as_str());
    let line = pos.line;
    // Find the start of the line, counting line feeds.
    let mut p: usize = 0;
    let mut rem: u32 = line;
    while rem > 0 && p < cs.len()
        invariant
            0 <= p <= cs@.len(),
            cs@ == text@,
            rem <= line,
            line - rem < 0x1_0000_0000u64,
            spec_line_start_c(text@, 0, line as nat) == spec_line_start_c(text@, p as int, rem as nat),
            spec_line_start_c(text@, 0, (line + 1) as nat) == spec_line_start_c(
                text@,
                p as int,
                (rem + 1) as nat,
            ),
            spec_count_nl_c(text@, 0) == line - rem + spec_count_nl_c(text@, p as int),
        decreases cs@.len() - p,
    {
        if cs[p] == '\n' {
            rem = rem - 1;
        }
        p = p + 1;
    }
    if rem > 0 {
        // Ran out of text: the document has fewer lines.
        proof {
            assert(spec_count_nl_c(text@, p as int) == 0);
        }
        return Err(DocError::RangeOutOfBounds);
    }
    proof {
        assert(spec_line_start_c(text@, p as int, 0nat) == p as int);
        assert(spec_count_nl_c(text@, 0) >= line);
    }
    // End of this line: the start of the next one.
    let mut q: usize = p;
    let mut en: usize = cs.len();
    let mut found: bool = false;
    while !found && q < cs.len()
        invariant
            p <= q <= cs@.len(),
            cs@ == text@,
            en <= cs@.len(),
            !found ==> spec_line_start_c(text@, p as int, 1nat) == spec_line_start_c(
                text@,
                q as int,
                1nat,
            ),
            found ==> en == spec_line_start_c(text@, p as int, 1nat) && p <= en,
            !found ==> en == cs@.len(),
        decreases cs@.len() - q + (if found {
            0int
        } else {
            1int
        }),
    {
        if cs[q] == '\n' {
            en = q + 1;
            found = true;
            proof {
                assert(spec_line_start_c(text@, q as int, 1nat) == spec_line_start_c(
                    text@,
                    q + 1,
                    0nat,
                ));
            }
        } else {
            q = q + 1;
        }
    }
    proof {
        if !found {
            assert(spec_line_start_c(text@, q as int, 1nat) == cs@.len());
        }
        assert(en == spec_line_start_c(text@, p as int, 1nat));
        assert(en == spec_line_start_c(text@, 0, (line + 1) as nat));
        assert(spec_pos_to_char_idx(text@, pos.line as int, pos.character as int) == Some(
            spec_snap_walk(text@, p as int, en as int, pos.character as int),
        ));
    }
    // Walk UTF-16 units within the line, snapping inside a surrogate pair.
    let mut i: usize = p;
    let mut remaining: u32 = pos.character;
    loop
        invariant
            p <= i <= en <= cs@.len(),
            cs@ == text@,
            spec_pos_to_char_idx(text@, pos.line as int, pos.character as int) == Some(
                spec_snap_walk(text@, p as int, en as int, pos.character as int),
            ),
            spec_snap_walk(text@, p as int, en as int, pos.character as int) == spec_snap_walk(
                text@,
                i as int,
                en as int,
                remaining as int,
            ),
        decreases en - i,
    {
        if i >= en {
            return Ok(i);
        }
        let w: u32 = if (cs[i] as u32) >= 0x10000 {
            2
        } else {
            1
        };
        if remaining < w {
            return Ok(i);
        }
        remaining = remaining - w;
        i = i + 1;
    }
}

// ────────────────────────────────────────────────────────────
// $schema extraction
// ────────────────────────────────────────────────────────────

/// End of the scan window: the longest prefix whose UTF-8 form stays within
/// `budget` bytes.
pub open spec fn spec_window_end(s: Seq<char>, p: int, budget: int) -> int
    decreases s.len() - p when 0 <= p <= s.len()
{
    if p >= s.len() {
        p
    } else if spec_utf8_len(s[p]) > budget {
        p
    } else {
        spec_window_end(s, p + 1, budget - spec_utf8_len(s[p]))
    }
}

/// First occurrence of `pat` at or after `i`.
pub open spec fn spec_find_sub(w: Seq<char>, pat: Seq<char>, i: int) -> Option<int>
    decreases w.len() + 1 - i when 0 <= i
{
    if i + pat.len() > w.len() {
        None
    } else if w.subrange(i, i + pat.len() as int) == pat {
        Some(i)
    } else {
        spec_find_sub(w, pat, i + 1)
    }
}

/// First position of `c` at or after `i`.
pub open spec fn spec_find_char(w: Seq<char>, c: char, i: int) -> Option<int>
    decreases w.len() - i when 0 <= i
{
    if i >= w.len() {
        None
    } else if w[i] == c {
        Some(i)
    } else {
        spec_find_char(w, c, i + 1)
    }
}

pub open spec fn is_ws_char(c: char) -> bool {
    c == ' ' || c == '\t' || c == '\r' || c == '\n'
}

pub open spec fn spec_skip_ws_c(w: Seq<char>, i: int) -> int
    decreases w.len() - i when 0 <= i <= w.len()
{
    if i >= w.len() {
        i
    } else if is_ws_char(w[i]) {
        spec_skip_ws_c(w, i + 1)
    } else {
        i
    }
}

/// The `$schema` URL of a document: within the first two kibibytes, the
/// quoted string after the first `"$schema"` key and its colon; absent when
/// any of those is missing or the string is empty.
pub open spec fn spec_extract_schema_url(s: Seq<char>) -> Option<Seq<char>> {
    let w = s.subrange(0, spec_window_end(s, 0, 2048));
    match spec_find_sub(w, "\"$schema\""@, 0) {
        None => None,
        Some(k) => match spec_find_char(w, ':', k + 9) {
            None => None,
            Some(c) => {
                let p = spec_skip_ws_c(w, c + 1);
                if p >= w.len() || w[p] != '"' {
                    None
                } else {
                    match spec_find_char(w, '"', p + 1) {
                        None => None,
                        Some(q) => if q == p + 1 {
                            None
                        } else {
                            Some(w.subrange(p + 1, q))
                        },
                    }
                }
            },
        },
    }
}

proof fn lemma_window_end_bounds(s: Seq<char>, p: int, budget: int)
    requires
        0 <= p <= s.len(),
    ensures
        p <= spec_window_end(s, p, budget) <= s.len(),
    decreases s.len() - p,
{
    if p < s.len() && spec_utf8_len(s[p]) <= budget {
        lemma_window_end_bounds(s, p + 1, budget - spec_utf8_len(s[p]));
    }
}

proof fn lemma_find_char_bounds(w: Seq<char>, c: char, i: int)
    requires
        0 <= i,
    ensures
        match spec_find_char(w, c, i) {
            Some(j) => i <= j < w.len() && w[j] == c,
            None => true,
        },
    decreases w.len() - i,
{
    if i < w.len() && w[i] != c {
        lemma_find_char_bounds(w, c, i + 1);
    }
}

/// Scan the start of the document for a `"$schema"` key and return its URL.
pub fn extract_schema_url(text: &str) -> (r: Option<String>)
    ensures
        match r {
            Some(u) => spec_extract_schema_url(text@) == Some(u@),
            None => spec_extract_schema_url(text@) is None,
        },
{
    let cs = str_chars(text);
    // The window: at most two kibibytes of UTF-8.
    let mut e: usize = 0;
    let mut budget: u32 = 2048;
    while e < cs.len() && utf8_len_exec(cs[e]) <= budget
        invariant
            0 <= e <= cs@.len(),
            cs@ == text@,
            budget <= 2048,
            spec_window_end(text@, 0, 2048) == spec_window_end(text@, e as int, budget as int),
        decreases cs@.len() - e,
    {
        budget = budget - utf8_len_exec(cs[e]);
        e = e + 1;
    }
    let mut w: Vec<char> = Vec::new();
    let mut i: usize = 0;
    while i < e
        invariant
            0 <= i <= e <= cs@.len(),
            cs@ == text@,
            w@ == text@.subrange(0, i as int),
        decreases e - i,
    {
        w.push(cs[i]);
        proof {
            assert(w@ =~= text@.subrange(0, i + 1));
        }
        i = i + 1;
    }
    let ghost wv = text@.subrange(0, spec_window_end(text@, 0, 2048));
    proof {
        assert(w@ =~= wv);
    }
    let pat = str_chars("\"$schema\"");
    let k = match find_sub(&w, &pat, 0) {
        Some(k) => k,
        None => {
            return None;
        },
    };
    proof {
        reveal_strlit("\"$schema\"");
        assert(pat@.len() == 9);
    }
    let c = match find_char(&w, ':', k + 9) {
        Some(c) => c,
        None => {
            return None;
        },
    };
    proof {
        lemma_find_char_bounds(wv, ':', k + 9);
    }
    let mut p: usize = c + 1;
    while p < w.len() && (w[p] == ' ' || w[p] == '\t' || w[p] == '\r' || w[p] == '\n')
        invariant
            0 <= p <= w@.len(),
            w@ == wv,
            spec_skip_ws_c(wv, c + 1) == spec_skip_ws_c(wv, p as int),
        decreases w@.len() - p,
    {
        p = p + 1;
    }
    if p >= w.len() || w[p] != '"' {
        return None;
    }
    let q = match find_char(&w, '"', p + 1) {
        Some(q) => q,
        None => {
            return None;
        },
    };
    if q == p + 1 {
        return None;
    }
    proof {
        lemma_find_char_bounds(wv, '"', p + 1);
    }
    let mut url: Vec<char> = Vec::new();
    let mut j: usize = p + 1;
    while j < q
        invariant
            p + 1 <= j <= q <= w@.len(),
            w@ == wv,
            url@ == wv.subrange(p + 1, j as int),
        decreases q - j,
    {
        url.push(w[j]);
        proof {
            assert(url@ =~= wv.subrange(p + 1, j + 1));
        }
        j = j + 1;
    }
    Some(crate::json::chars_string(&url))
}

/// UTF-8 length of one scalar.
fn utf8_len_exec(c: char) -> (l: u32)
    ensures
        l as int == spec_utf8_len(c),
{
    if (c as u32) < 0x80 {
        1
    } else if (c as u32) < 0x800 {
        2
    } else if (c as u32) < 0x10000 {
        3
    } else {
        4
    }
}

/// First occurrence of `pat` in `w` at or after `start`.
fn find_sub(w: &Vec<char>, pat: &Vec<char>, start: usize) -> (r: Option<usize>)
    requires
        start <= w@.len() + 1,
    ensures
        match r {
            Some(k) => spec_find_sub(w@, pat@, start as int) == Some(k as int) && k + pat@.len()
                <= w@.len(),
            None => spec_find_sub(w@, pat@, start as int) is None,
        },
    decreases w@.len() + 1 - start,
{
    if pat.len() > w.len() {
        return None;
    }
    if start > w.len() - pat.len() {
        return None;
    }
    if crate::navigator::match_at(w, pat, start) {
        return Some(start);
    }
    proof {
        if pat@.len() == 0 {
            assert(w@.subrange(start as int, start as int + pat@.len() as int) =~= pat@);
        }
    }
    find_sub(w, pat, start + 1)
}

/// First position of `c` in `w` at or after `start`.
fn find_char(w: &Vec<char>, c: char, start: usize) -> (r: Option<usize>)
    ensures
        match r {
            Some(k) => spec_find_char(w@, c, start as int) == Some(k as int) && k < w@.len(),
            None => spec_find_char(w@, c, start as int) is None,
        },
    decreases w@.len() - start,
{
    if start >= w.len() {
        return None;
    }
    if w[start] == c {
        return Some(start);
    }
    find_char(w, c, start + 1)
}

// ────────────────────────────────────────────────────────────
// Applying changes
// ────────────────────────────────────────────────────────────

/// The text after one change: the change's text alone for a full
/// replacement, else the text with the range spliced out and the change's
/// text in its place. Absent when an endpoint lies outside the document or
/// the range is reversed.
pub open spec fn spec_apply_change(text: Seq<char>, c: TextChange) -> Option<Seq<char>> {
    match c.range {
        None => Some(c.text@),
        Some(r) => match spec_pos_to_char_idx(text, r.start.line as int, r.start.character as int) {
            None => None,
            Some(s) => match spec_pos_to_char_idx(text, r.end.line as int, r.end.character as int) {
                None => None,
                Some(e) => if s > e {
                    None
                } else {
                    Some(text.subrange(0, s) + c.text@ + text.skip(e))
                },
            },
        },
    }
}

/// The text after the changes from index `i` on, applied in order; absent as
/// soon as one fails.
pub open spec fn spec_apply_changes_from(text: Seq<char>, cs: Seq<TextChange>, i: int) -> Option<
    Seq<char>,
>
    decreases cs.len() - i when 0 <= i
{
    if i >= cs.len() {
        Some(text)
    } else {
        match spec_apply_change(text, cs[i]) {
            Some(t) => spec_apply_changes_from(t, cs, i + 1),
            None => None,
        }
    }
}

pub open spec fn spec_apply_changes(text: Seq<char>, cs: Seq<TextChange>) -> Option<Seq<char>> {
    spec_apply_changes_from(text, cs, 0)
}

/// A sequence of incremental changes agrees with the one full-replacement
/// change that carries the same final text: applying either to the document
/// yields that text.
pub proof fn lemma_full_replacement_equivalent(
    text: Seq<char>,
    cs: Seq<TextChange>,
    full: TextChange,
)
    requires
        full.range is None,
        spec_apply_changes(text, cs) == Some(full.text@),
    ensures
        spec_apply_changes(text, seq![full]) == spec_apply_changes(text, cs),
{
    assert(spec_apply_changes_from(text, seq![full], 0) == spec_apply_changes_from(
        full.text@,
        seq![full],
        1,
    ));
}

// ────────────────────────────────────────────────────────────
// The store
// ────────────────────────────────────────────────────────────

/// One open document.
#[derive(Debug)]
pub struct DocumentState {
    pub rope: ropey::Rope,
    pub version: i32,
    pub schema_url: Option<String>,
    pub text: String,
}

impl DocumentState {
    /// The rope mirrors the text, and the cached `$schema` URL is the one the
    /// text declares.
    pub open spec fn wf(&self) -> bool {
        rope_chars(self.rope) == self.text@ && crate::navigator::opt_str_view(self.schema_url)
            == spec_extract_schema_url(self.text@)
    }
}

/// All open documents, keyed by URI.
#[derive(Debug)]
pub struct DocumentStore {
    pub docs: Vec<(String, DocumentState)>,
}

/// The state stored under a URI: the first entry with that key.
pub open spec fn spec_store_get(docs: Seq<(String, DocumentState)>, uri: Seq<char>) -> Option<
    DocumentState,
>
    decreases docs.len(),
{
    if docs.len() == 0 {
        None
    } else if docs[0].0@ == uri {
        Some(docs[0].1)
    } else {
        spec_store_get(docs.drop_first(), uri)
    }
}

impl DocumentStore {
    /// URIs are unique and every entry is well formed.
    pub open spec fn wf(&self) -> bool {
        (forall|i: int, j: int| 0 <= i < j < self.docs@.len() ==> (#[trigger] self.docs@[i]).0@
            != (#[trigger] self.docs@[j]).0@) && (forall|i: int| 0 <= i < self.docs@.len() ==> (
        #[trigger] self.docs@[i]).1.wf())
    }
}

proof fn lemma_store_get_first_match(docs: Seq<(String, DocumentState)>, u: Seq<char>, i: int)
    requires
        0 <= i < docs.len(),
        docs[i].0@ == u,
        forall|j: int| 0 <= j < i ==> (#[trigger] docs[j]).0@ != u,
    ensures
        spec_store_get(docs, u) == Some(docs[i].1),
    decreases i,
{
    if i > 0 {
        lemma_store_get_first_match(docs.drop_first(), u, i - 1);
    }
}

proof fn lemma_store_get_none(docs: Seq<(String, DocumentState)>, u: Seq<char>)
    requires
        forall|j: int| 0 <= j < docs.len() ==> (#[trigger] docs[j]).0@ != u,
    ensures
        spec_store_get(docs, u) is None,
    decreases docs.len(),
{
    if docs.len() > 0 {
        lemma_store_get_none(docs.drop_first(), u);
    }
}

/// Replacing the entry at `i` with one under the same key leaves every other
/// key's lookup unchanged.
proof fn lemma_store_get_update(
    d1: Seq<(String, DocumentState)>,
    d2: Seq<(String, DocumentState)>,
    i: int,
    u: Seq<char>,
)
    requires
        d1.len() == d2.len(),
        0 <= i < d1.len(),
        forall|j: int| 0 <= j < d1.len() && j != i ==> #[trigger] d2[j] == d1[j],
        d2[i].0@ == d1[i].0@,
        u != d1[i].0@,
    ensures
        spec_store_get(d2, u) == spec_store_get(d1, u),
    decreases d1.len(),
{
    if d1.len() > 0 {
        if i == 0 {
            assert(d1.drop_first() =~= d2.drop_first());
        } else {
            assert(d2[0] == d1[0]);
            if d1[0].0@ == u {
            } else {
                assert(forall|j: int|
                    0 <= j < d1.drop_first().len() && j != i - 1 ==> #[trigger] d2.drop_first()[j]
                        == d1.drop_first()[j]);
                lemma_store_get_update(d1.drop_first(), d2.drop_first(), i - 1, u);
            }
        }
    }
}

proof fn lemma_store_get_push(
    docs: Seq<(String, DocumentState)>,
    e: (String, DocumentState),
    u: Seq<char>,
)
    ensures
        spec_store_get(docs.push(e), u) == (match spec_store_get(docs, u) {
            Some(st) => Some(st),
            None => if e.0@ == u {
                Some(e.1)
            } else {
                None
            },
        }),
    decreases docs.len(),
{
    if docs.len() == 0 {
        assert(docs.push(e)[0] == e);
        assert(docs.push(e).drop_first() =~= Seq::<(String, DocumentState)>::empty());
        assert(spec_store_get(docs.push(e).drop_first(), u) is None);
    } else {
        assert(docs.push(e)[0] == docs[0]);
        assert(docs.push(e).drop_first() =~= docs.drop_first().push(e));
        lemma_store_get_push(docs.drop_first(), e, u);
        if docs[0].0@ == u {
            assert(spec_store_get(docs.push(e), u) == Some(docs[0].1));
            assert(spec_store_get(docs, u) == Some(docs[0].1));
        } else {
            assert(spec_store_get(docs.push(e), u) == spec_store_get(
                docs.drop_first().push(e),
                u,
            ));
            assert(spec_store_get(docs, u) == spec_store_get(docs.drop_first(), u));
        }
    }
}

/// Removing the entry at `i` removes its key's lookup and no other, when the
/// keys are unique.
proof fn lemma_store_get_remove(docs: Seq<(String, DocumentState)>, i: int, u: Seq<char>)
    requires
        0 <= i < docs.len(),
        forall|p: int, q: int| 0 <= p < q < docs.len() ==> (#[trigger] docs[p]).0@ != (
        #[trigger] docs[q]).0@,
    ensures
        u == docs[i].0@ ==> spec_store_get(docs.remove(i), u) is None,
        u != docs[i].0@ ==> spec_store_get(docs.remove(i), u) == spec_store_get(docs, u),
    decreases docs.len(),
{
    if i == 0 {
        assert(docs.remove(0) =~= docs.drop_first());
        if u == docs[0].0@ {
            assert(forall|j: int| 0 <= j < docs.drop_first().len() ==> (
            #[trigger] docs.drop_first()[j]).0@ != u);
            lemma_store_get_none(docs.drop_first(), u);
        }
    } else {
        assert(docs.remove(i)[0] == docs[0]);
        assert(docs.remove(i).drop_first() =~= docs.drop_first().remove(i - 1));
        if docs[0].0@ != u {
            lemma_store_get_remove(docs.drop_first(), i - 1, u);
        }
    }
}

/// Index of the entry under a URI.
fn find_doc(docs: &Vec<(String, DocumentState)>, uri: &String) -> (r: Option<usize>)
    ensures
        match r {
            Some(i) => i < docs@.len() && docs@[i as int].0@ == uri@ && (forall|j: int|
                0 <= j < i ==> (#[trigger] docs@[j]).0@ != uri@) && spec_store_get(docs@, uri@)
                == Some(docs@[i as int].1),
            None => spec_store_get(docs@, uri@) is None && (forall|j: int|
                0 <= j < docs@.len() ==> (#[trigger] docs@[j]).0@ != uri@),
        },
{
    let mut i: usize = 0;
    while i < docs.len()
        invariant
            i <= docs@.len(),
            forall|j: int| 0 <= j < i ==> (#[trigger] docs@[j]).0@ != uri@,
        decreases docs@.len() - i,
    {
        if docs[i].0 == *uri {
            proof {
                lemma_store_get_first_match(docs@, uri@, i as int);
            }
            return Some(i);
        }
        i = i + 1;
    }
    proof {
        lemma_store_get_none(docs@, uri@);
    }
    None
}

impl DocumentStore {
    /// An empty store.
    pub fn new() -> (r: Self)
        ensures
            r.wf(),
            r.docs@.len() == 0,
    {
        DocumentStore { docs: Vec::new() }
    }


    /// Open a document: store its text, a rope holding the same text, the
    /// version, and the `$schema` URL extracted from the text. An entry
    /// already open under the URI is replaced.
    pub fn open(&mut self, uri: String, version: i32, text: String)
        requires
            old(self).wf(),
        ensures
            final(self).wf(),
            match spec_store_get(final(self).docs@, uri@) {
                Some(st) => st.text@ == text@ && st.version == version
                    && crate::navigator::opt_str_view(st.schema_url) == spec_extract_schema_url(
                    text@,
                ),
                None => false,
            },
            forall|u: Seq<char>| u != uri@ ==> spec_store_get(final(self).docs@, u)
                == spec_store_get(old(self).docs@, u),
    {
        let schema_url = extract_schema_url(text.as_str());
        let rope = rope_from_str(text.as_str());
        let state = DocumentState { rope, version, schema_url, text };
        match find_doc(&self.docs, &uri) {
            Some(i) => {
                let ghost d1 = self.docs@;
                self.docs.remove(i);
                self.docs.insert(i, (uri, state));
                proof {
                    let d2 = self.docs@;
                    assert(d2 =~= d1.update(i as int, d2[i as int]));
                    assert forall|u: Seq<char>| u != d1[i as int].0@ implies spec_store_get(d2, u)
                        == spec_store_get(d1, u) by {
                        lemma_store_get_update(d1, d2, i as int, u);
                    }
                    lemma_store_get_first_match(d2, d1[i as int].0@, i as int);
                }
            },
            None => {
                let ghost d1 = self.docs@;
                self.docs.push((uri, state));
                proof {
                    let d2 = self.docs@;
                    assert forall|u: Seq<char>| u != d2[d1.len() as int].0@ implies spec_store_get(
                        d2,
                        u,
                    ) == spec_store_get(d1, u) by {
                        lemma_store_get_push(d1, d2[d1.len() as int], u);
                    }
                    lemma_store_get_push(d1, d2[d1.len() as int], d2[d1.len() as int].0@);
                }
            },
        }
    }

    /// Close a document: its entry is gone, others stay.
    pub fn close(&mut self, uri: &String)
        requires
            old(self).wf(),
        ensures
            final(self).wf(),
            spec_store_get(final(self).docs@, uri@) is None,
            forall|u: Seq<char>| u != uri@ ==> spec_store_get(final(self).docs@, u)
                == spec_store_get(old(self).docs@, u),
    {
        match find_doc(&self.docs, uri) {
            Some(i) => {
                let ghost d1 = self.docs@;
                self.docs.remove(i);
                proof {
                    assert forall|u: Seq<char>| true implies (u == d1[i as int].0@
                        ==> spec_store_get(d1.remove(i as int), u) is None) && (u != d1[
                        i as int].0@ ==> spec_store_get(d1.remove(i as int), u) == spec_store_get(
                        d1,
                        u,
                    )) by {
                        lemma_store_get_remove(d1, i as int, u);
                    }
                }
            },
            None => (),
        }
    }

    /// The stored text of a document.
    pub fn get_text(&self, uri: &String) -> (r: Option<String>)
        ensures
            match r {
                Some(t) => match spec_store_get(self.docs@, uri@) {
                    Some(st) => t@ == st.text@,
                    None => false,
                },
                None => spec_store_get(self.docs@, uri@) is None,
            },
    {
        match find_doc(&self.docs, uri) {
            Some(i) => Some(self.docs[i].1.text.clone()),
            None => None,
        }
    }

    /// The cached `$schema` URL of a document; absent when the document is
    /// not open or declares none.
    pub fn get_schema_url(&self, uri: &String) -> (r: Option<String>)
        ensures
            match spec_store_get(self.docs@, uri@) {
                Some(st) => crate::navigator::opt_str_view(r) == crate::navigator::opt_str_view(
                    st.schema_url,
                ),
                None => r is None,
            },
    {
        match find_doc(&self.docs, uri) {
            Some(i) => match &self.docs[i].1.schema_url {
                Some(u) => Some(u.clone()),
                None => None,
            },
            None => None,
        }
    }

    /// Apply the changes of a `didChange` notification, in order and
    /// atomically: when any change fails, the store is left as it was. On
    /// success the entry holds the new text, the given version, and the
    /// `$schema` URL of the new text. The call succeeds exactly when the
    /// document is open and every change applies.
    pub fn update(&mut self, uri: &String, version: i32, changes: Vec<TextChange>) -> (r: Result<
        (),
        DocError,
    >)
        requires
            old(self).wf(),
        ensures
            final(self).wf(),
            (r is Ok) == (match spec_store_get(old(self).docs@, uri@) {
                Some(st0) => spec_apply_changes(st0.text@, changes@) is Some,
                None => false,
            }),
            match r {
                Ok(()) => match spec_store_get(old(self).docs@, uri@) {
                    Some(st0) => match spec_apply_changes(st0.text@, changes@) {
                        Some(t2) => match spec_store_get(final(self).docs@, uri@) {
                            Some(st) => st.text@ == t2 && st.version == version
                                && crate::navigator::opt_str_view(st.schema_url)
                                == spec_extract_schema_url(t2),
                            None => false,
                        },
                        None => false,
                    },
                    None => false,
                },
                Err(e) => *final(self) == *old(self) && (e == DocError::NotFound <==> spec_store_get(
                    old(self).docs@,
                    uri@,
                ) is None),
            },
            forall|u: Seq<char>| u != uri@ ==> spec_store_get(final(self).docs@, u)
                == spec_store_get(old(self).docs@, u),
    {
        let i = match find_doc(&self.docs, uri) {
            Some(i) => i,
            None => {
                return Err(DocError::NotFound);
            },
        };
        let ghost st0 = self.docs@[i as int].1;
        let mut rope = rope_clone(&self.docs[i].1.rope);
        let mut text = self.docs[i].1.text.clone();
        let mut k: usize = 0;
        proof {
            assert(self.docs@[i as int].1.wf());
        }
        while k < changes.len()
            invariant
                k <= changes@.len(),
                *self == *old(self),
                old(self).wf(),
                i < self.docs@.len(),
                self.docs@[i as int].0@ == uri@,
                forall|j: int| 0 <= j < i ==> (#[trigger] self.docs@[j]).0@ != uri@,
                st0 == self.docs@[i as int].1,
                spec_store_get(old(self).docs@, uri@) == Some(st0),
                rope_chars(rope) == text@,
                spec_apply_changes_from(st0.text@, changes@, 0) == spec_apply_changes_from(
                    text@,
                    changes@,
                    k as int,
                ),
            decreases changes@.len() - k,
        {
            let ghost t0 = text@;
            let c = &changes[k];
            match &c.range {
                None => {
                    rope = rope_from_str(c.text.as_str());
                    text = c.text.clone();
                },
                Some(range) => {
                    let s = match lsp_pos_to_char_idx(&text, range.start) {
                        Ok(s) => s,
                        Err(_) => {
                            return Err(DocError::RangeOutOfBounds);
                        },
                    };
                    let e = match lsp_pos_to_char_idx(&text, range.end) {
                        Ok(e) => e,
                        Err(_) => {
                            return Err(DocError::RangeOutOfBounds);
                        },
                    };
                    if s > e {
                        return Err(DocError::RangeOutOfBounds);
                    }
                    rope_remove(&mut rope, s, e);
                    rope_insert(&mut rope, s, c.text.as_str());
                    text = rope_to_string(&rope);
                    proof {
                        assert(text@ =~= t0.subrange(0, s as int) + c.text@ + t0.skip(e as int));
                    }
                },
            }
            k = k + 1;
        }
        let schema_url = extract_schema_url(text.as_str());
        let state = DocumentState { rope, version, schema_url, text };
        let ghost d1 = self.docs@;
        let uri2 = self.docs[i].0.clone();
        self.docs.remove(i);
        self.docs.insert(i, (uri2, state));
        proof {
            let d2 = self.docs@;
            assert forall|u: Seq<char>| u != d1[i as int].0@ implies spec_store_get(d2, u)
                == spec_store_get(d1, u) by {
                lemma_store_get_update(d1, d2, i as int, u);
            }
            lemma_store_get_first_match(d2, d1[i as int].0@, i as int);
        }
        Ok(())
    }
}

impl Default for DocumentStore {
    fn default() -> (r: Self)
        ensures
            r.wf(),
            r.docs@.len() == 0,
    {
        DocumentStore::new()
    }
}

} // verus!
