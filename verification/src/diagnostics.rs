//! Building diagnostics: the syntax-error diagnostic for an unparseable
//! document and one schema-validation diagnostic per validator finding, each
//! located by a best-effort scan of the raw text.

use vstd::prelude::*;

verus! {

use vstd::string::StrSliceExecFns;
use vstd::string::StringSliceAdditionalSpecFns;
use vstd::string::StringExecFns;
use crate::document::LspPosition;
use crate::document::LspRange;
use crate::position::char_step;
use crate::position::utf16_width;

/// One finding of the schema validator: an instance path as a JSON Pointer,
/// and its message.
#[derive(Debug)]
pub struct ValidationIssue {
    pub pointer: String,
    pub message: String,
}

/// One diagnostic as published to the editor. The severity is the LSP error
/// severity in every diagnostic this server produces.
#[derive(Debug)]
pub struct Diagnostic {
    pub range: LspRange,
    pub severity: u32,
    pub code: String,
    pub source: String,
    pub message: String,
}

// ────────────────────────────────────────────────────────────
// Byte offset to LSP position
// ────────────────────────────────────────────────────────────

/// Line number and line-start offset of the scalar walk up to `stop`.
pub open spec fn spec_line_of(s: Seq<u8>, p: int, stop: int, line: int, line_start: int) -> (
    int,
    int,
)
    decreases s.len() - p when 0 <= p <= s.len()
{
    if p >= stop || p >= s.len() {
        (line, line_start)
    } else if s[p] == 10u8 {
        spec_line_of(s, p + 1, stop, line + 1, p + 1)
    } else {
        let q = p + char_step(s[p]);
        if q > s.len() {
            (line, line_start)
        } else {
            spec_line_of(s, q, stop, line, line_start)
        }
    }
}

/// UTF-16 code units of the scalars from `p` up to `stop`.
pub open spec fn spec_utf16_count(s: Seq<u8>, p: int, stop: int) -> int
    decreases s.len() - p when 0 <= p <= s.len()
{
    if p >= stop || p >= s.len() {
        0
    } else {
        let q = p + char_step(s[p]);
        if q > s.len() {
            utf16_width(s[p])
        } else {
            utf16_width(s[p]) + spec_utf16_count(s, q, stop)
        }
    }
}

/// The LSP position of a byte offset: its line, and its UTF-16 column within
/// the line; both clamped into the u32 range.
pub open spec fn spec_offset_to_pos(s: Seq<u8>, offset: int) -> (int, int) {
    let stop = if offset > s.len() {
        s.len() as int
    } else {
        offset
    };
    let lp = spec_line_of(s, 0, stop, 0, 0);
    (lp.0, spec_utf16_count(s, lp.1, stop))
}

pub open spec fn clamp_u32(x: int) -> int {
    if x > 0xFFFF_FFFF {
        0xFFFF_FFFF
    } else {
        x
    }
}

proof fn lemma_line_of_bounds(s: Seq<u8>, p: int, stop: int, line: int, line_start: int)
    requires
        0 <= p <= s.len(),
        0 <= line,
        0 <= line_start <= p,
    ensures
        ({
            let r = spec_line_of(s, p, stop, line, line_start);
            line <= r.0 && 0 <= r.1 <= s.len() && (r.1 <= stop || r.1 <= p)
        }),
    decreases s.len() - p,
{
    if p >= stop || p >= s.len() {
    } else if s[p] == 10u8 {
        lemma_line_of_bounds(s, p + 1, stop, line + 1, p + 1);
    } else {
        let q = p + char_step(s[p]);
        if q <= s.len() {
            lemma_line_of_bounds(s, q, stop, line, line_start);
        }
    }
}

/// Convert a byte offset in `text` to an LSP position (UTF-16 based). The
/// document must fit the u32 range of LSP offsets.
pub fn byte_offset_to_lsp_pos(text: &str, byte_offset: usize) -> (r: (u32, u32))
    requires
        text.spec_bytes().len() <= 0xFFFF_FFFF,
    ensures
        r.0 as int == clamp_u32(spec_offset_to_pos(text.spec_bytes(), byte_offset as int).0),
        r.1 as int == clamp_u32(spec_offset_to_pos(text.spec_bytes(), byte_offset as int).1),
{
    let bytes: Vec<u8> = text.as_bytes_vec();
    let stop: usize = if byte_offset > bytes.len() {
        bytes.len()
    } else {
        byte_offset
    };
    let ghost s = text.spec_bytes();
    let mut p: usize = 0;
    let mut line: u64 = 0;
    let mut line_start: usize = 0;
    loop
        invariant
            0 <= p <= bytes@.len(),
            bytes@ == s,
            s.len() <= 0xFFFF_FFFF,
            stop <= bytes@.len(),
            stop == (if byte_offset > s.len() {
                s.len() as int
            } else {
                byte_offset as int
            }),
            line_start <= p,
            line <= p,
            spec_line_of(s, 0, stop as int, 0, 0) == spec_line_of(
                s,
                p as int,
                stop as int,
                line as int,
                line_start as int,
            ),
        ensures
            line as int == spec_line_of(s, 0, stop as int, 0, 0).0,
            line_start as int == spec_line_of(s, 0, stop as int, 0, 0).1,
            line_start <= bytes@.len(),
        decreases bytes@.len() - p,
    {
        if p >= stop || p >= bytes.len() {
            break;
        }
        let b = bytes[p];
        if b == 10u8 {
            line = line + 1;
            p = p + 1;
            line_start = p;
        } else {
            let step: usize = if b < 0xC0u8 {
                1
            } else if b < 0xE0u8 {
                2
            } else if b < 0xF0u8 {
                3
            } else {
                4
            };
            if bytes.len() - p < step {
                break;
            }
            p = p + step;
        }
    }
    // UTF-16 units from the line start.
    let mut q = line_start;
    let mut col: u64 = 0;
    loop
        invariant_except_break
            line_start <= q <= bytes@.len(),
            bytes@ == s,
            s.len() <= 0xFFFF_FFFF,
            stop <= bytes@.len(),
            col <= 2 * (q as int),
            col as int + spec_utf16_count(s, q as int, stop as int) == spec_utf16_count(
                s,
                line_start as int,
                stop as int,
            ),
        ensures
            col as int == spec_utf16_count(s, line_start as int, stop as int),
        decreases bytes@.len() - q,
    {
        if q >= stop || q >= bytes.len() {
            break;
        }
        let b = bytes[q];
        let w: u64 = if b >= 0xF0u8 {
            2
        } else {
            1
        };
        let step: usize = if b < 0xC0u8 {
            1
        } else if b < 0xE0u8 {
            2
        } else if b < 0xF0u8 {
            3
        } else {
            4
        };
        if bytes.len() - q < step {
            col = col + w;
            proof {
                assert(spec_utf16_count(s, q as int, stop as int) == w);
            }
            break;
        }
        col = col + w;
        q = q + step;
    }
    let lr: u32 = if line > 0xFFFF_FFFFu64 {
        0xFFFF_FFFFu32
    } else {
        line as u32
    };
    let cr: u32 = if col > 0xFFFF_FFFFu64 {
        0xFFFF_FFFFu32
    } else {
        col as u32
    };
    (lr, cr)
}

// ────────────────────────────────────────────────────────────
// Locating a JSON Pointer in the raw text
// ────────────────────────────────────────────────────────────

/// First occurrence of the byte pattern `pat` in `s` at or after `i`.
pub open spec fn spec_find_bytes(s: Seq<u8>, pat: Seq<u8>, i: int) -> Option<int>
    decreases s.len() + 1 - i when 0 <= i
{
    if i + pat.len() > s.len() {
        None
    } else if s.subrange(i, i + pat.len() as int) == pat {
        Some(i)
    } else {
        spec_find_bytes(s, pat, i + 1)
    }
}

fn match_bytes_at(v: &Vec<u8>, p: &Vec<u8>, i: usize) -> (b: bool)
    requires
        i + p@.len() <= v@.len(),
    ensures
        b == (v@.subrange(i as int, i + p@.len()) == p@),
{
    let n = v.len();
    let mut k: usize = 0;
    while k < p.len()
        invariant
            k <= p@.len(),
            i + p@.len() <= v@.len(),
            v@.len() == n,
            forall|m: int| 0 <= m < k ==> v@[i + m] == p@[m],
        decreases p@.len() - k,
    {
        if v[i + k] != p[k] {
            proof {
                assert(v@.subrange(i as int, i + p@.len())[k as int] != p@[k as int]);
            }
            return false;
        }
        k = k + 1;
    }
    proof {
        assert(v@.subrange(i as int, i + p@.len()) =~= p@);
    }
    true
}

fn find_bytes(v: &Vec<u8>, pat: &Vec<u8>, start: usize) -> (r: Option<usize>)
    requires
        start <= v@.len() + 1,
    ensures
        match r {
            Some(k) => spec_find_bytes(v@, pat@, start as int) == Some(k as int) && k + pat@.len()
                <= v@.len(),
            None => spec_find_bytes(v@, pat@, start as int) is None,
        },
    decreases v@.len() + 1 - start,
{
    if pat.len() > v.len() {
        return None;
    }
    if start > v.len() - pat.len() {
        return None;
    }
    if match_bytes_at(v, pat, start) {
        return Some(start);
    }
    proof {
        if pat@.len() == 0 {
            assert(v@.subrange(start as int, start as int + pat@.len() as int) =~= pat@);
        }
    }
    find_bytes(v, pat, start + 1)
}

/// The first pointer token of `path` (leading slashes stripped), as chars.
pub open spec fn spec_first_token(p: Seq<char>) -> Seq<char> {
    let t = spec_strip_slashes(p);
    t.subrange(0, crate::json::spec_find_slash(t, 0))
}

pub open spec fn spec_strip_slashes(p: Seq<char>) -> Seq<char>
    decreases p.len(),
{
    if p.len() > 0 && p[0] == '/' {
        spec_strip_slashes(p.drop_first())
    } else {
        p
    }
}

/// The range of a validator finding: the first occurrence in the text of the
/// quoted first path token, spanning the quoted key (its end column counted
/// in the needle's bytes); absent when the token is empty or not found.
pub open spec fn spec_locate_path(path: Seq<char>, s: Seq<u8>) -> Option<(int, int, int)> {
    let key = spec_first_token(path);
    if key.len() == 0 {
        None
    } else {
        let needle = vstd::utf8::encode_utf8(seq!['"'] + key + seq!['"']);
        match spec_find_bytes(s, needle, 0) {
            Some(b) => {
                let pos = spec_offset_to_pos(s, b);
                Some((pos.0, pos.1, pos.1 + needle.len()))
            },
            None => None,
        }
    }
}

/// Attempt to locate a JSON Pointer path in the raw text.
pub fn try_locate_path(path: &str, text: &str) -> (r: Option<LspRange>)
    requires
        text.spec_bytes().len() <= 0xFFFF_FFFF,
    ensures
        match r {
            Some(range) => match spec_locate_path(path@, text.spec_bytes()) {
                Some(t) => range.start.line as int == clamp_u32(t.0) && range.end.line as int
                    == clamp_u32(t.0) && range.start.character as int == clamp_u32(t.1)
                    && range.end.character as int == clamp_u32(t.2),
                None => false,
            },
            None => spec_locate_path(path@, text.spec_bytes()) is None,
        },
{
    let p = crate::json::str_chars(path);
    let mut i: usize = 0;
    proof {
        assert(p@.skip(0) =~= p@);
    }
    while i < p.len() && p[i] == '/'
        invariant
            i <= p@.len(),
            spec_strip_slashes(p@) == spec_strip_slashes(p@.skip(i as int)),
        decreases p@.len() - i,
    {
        proof {
            assert(p@.skip(i as int)[0] == p@[i as int]);
            assert(p@.skip(i as int).drop_first() =~= p@.skip(i + 1));
        }
        i = i + 1;
    }
    proof {
        assert(spec_strip_slashes(p@.skip(i as int)) == p@.skip(i as int));
    }
    let mut j = i;
    while j < p.len() && p[j] != '/'
        invariant
            i <= j <= p@.len(),
            crate::json::spec_find_slash(p@.skip(i as int), 0) + i == crate::json::spec_find_slash(
                p@.skip(i as int),
                j - i,
            ) + i,
            crate::json::spec_find_slash(p@.skip(i as int), 0) == crate::json::spec_find_slash(
                p@.skip(i as int),
                j - i,
            ),
        decreases p@.len() - j,
    {
        proof {
            assert(p@.skip(i as int)[j - i] == p@[j as int]);
        }
        j = j + 1;
    }
    proof {
        assert(crate::json::spec_find_slash(p@.skip(i as int), j - i) == j - i);
    }
    if j == i {
        // Empty first token.
        return None;
    }
    // The needle: the token between quotes.
    let mut needle = String::from_str("\"");
    proof {
        reveal_strlit("\"");
        assert(needle@ =~= seq!['"'] + p@.subrange(i as int, i as int));
    }
    let mut k = i;
    while k < j
        invariant
            i <= k <= j <= p@.len(),
            needle@ == seq!['"'] + p@.subrange(i as int, k as int),
        decreases j - k,
    {
        crate::position::push_char(&mut needle, p[k]);
        proof {
            assert(needle@ =~= seq!['"'] + p@.subrange(i as int, k + 1));
        }
        k = k + 1;
    }
    crate::position::push_char(&mut needle, '"');
    proof {
        let key = spec_first_token(path@);
        assert(p@.skip(i as int).subrange(0, j - i) =~= p@.subrange(i as int, j as int));
        assert(needle@ =~= seq!['"'] + key + seq!['"']);
    }
    let nb: Vec<u8> = needle.as_str().as_bytes_vec();
    let tb: Vec<u8> = text.as_bytes_vec();
    let start = match find_bytes(&tb, &nb, 0) {
        Some(b) => b,
        None => {
            return None;
        },
    };
    let (line, character) = byte_offset_to_lsp_pos(text, start);
    let endc_w: u64 = character as u64 + nb.len() as u64;
    proof {
        lemma_line_of_bounds(text.spec_bytes(), 0, start as int, 0, 0);
        lemma_utf16_count_nonneg(
            text.spec_bytes(),
            spec_line_of(text.spec_bytes(), 0, start as int, 0, 0).1,
            start as int,
        );
        assert(spec_offset_to_pos(text.spec_bytes(), start as int).1 >= 0);
    }
    let end_character: u32 = if endc_w > 0xFFFF_FFFFu64 {
        0xFFFF_FFFFu32
    } else {
        endc_w as u32
    };
    Some(
        LspRange {
            start: LspPosition { line, character },
            end: LspPosition { line, character: end_character },
        },
    )
}

proof fn lemma_utf16_count_nonneg(s: Seq<u8>, p: int, stop: int)
    requires
        0 <= p <= s.len(),
    ensures
        spec_utf16_count(s, p, stop) >= 0,
    decreases s.len() - p,
{
    if p < stop && p < s.len() {
        let q = p + char_step(s[p]);
        if q <= s.len() {
            lemma_utf16_count_nonneg(s, q, stop);
        }
    }
}

// ────────────────────────────────────────────────────────────
// Building the diagnostics
// ────────────────────────────────────────────────────────────

/// Best-effort range of a validator finding: the located key, else a
/// one-character range at the top of the document.
pub fn instance_path_to_range(path: &str, text: &str) -> (r: LspRange)
    requires
        text.spec_bytes().len() <= 0xFFFF_FFFF,
    ensures
        match spec_locate_path(path@, text.spec_bytes()) {
            Some(t) => r.start.line as int == clamp_u32(t.0) && r.end.line as int == clamp_u32(t.0)
                && r.start.character as int == clamp_u32(t.1) && r.end.character as int
                == clamp_u32(t.2),
            None => r == LspRange {
                start: LspPosition { line: 0, character: 0 },
                end: LspPosition { line: 0, character: 1 },
            },
        },
{
    match try_locate_path(path, text) {
        Some(r) => r,
        None => LspRange {
            start: LspPosition { line: 0, character: 0 },
            end: LspPosition { line: 0, character: 1 },
        },
    }
}

/// What every diagnostic this server publishes has: the error severity and
/// the `json-ls` source.
pub open spec fn spec_diag_common(d: Diagnostic) -> bool {
    d.severity == 1 && d.source@ == "json-ls"@
}

/// What one schema-validation diagnostic must hold for its finding.
pub open spec fn spec_validation_diag(d: Diagnostic, issue: ValidationIssue, s: Seq<u8>) -> bool {
    &&& spec_diag_common(d)
    &&& d.code@ == "schema-validation"@
    &&& d.message@ == issue.message@
    &&& match spec_locate_path(issue.pointer@, s) {
        Some(t) => d.range.start.line as int == clamp_u32(t.0) && d.range.end.line as int
            == clamp_u32(t.0) && d.range.start.character as int == clamp_u32(t.1)
            && d.range.end.character as int == clamp_u32(t.2),
        None => d.range == LspRange {
            start: LspPosition { line: 0, character: 0 },
            end: LspPosition { line: 0, character: 1 },
        },
    }
}

/// One diagnostic per validator finding, in order.
pub fn validation_diagnostics(text: &str, issues: &Vec<ValidationIssue>) -> (r: Vec<Diagnostic>)
    requires
        text.spec_bytes().len() <= 0xFFFF_FFFF,
    ensures
        r@.len() == issues@.len(),
        forall|i: int| 0 <= i < r@.len() ==> spec_validation_diag(
            #[trigger] r@[i],
            issues@[i],
            text.spec_bytes(),
        ),
{
    let mut r: Vec<Diagnostic> = Vec::new();
    let mut i: usize = 0;
    while i < issues.len()
        invariant
            i <= issues@.len(),
            r@.len() == i,
            text.spec_bytes().len() <= 0xFFFF_FFFF,
            forall|k: int| 0 <= k < i ==> spec_validation_diag(
                #[trigger] r@[k],
                issues@[k],
                text.spec_bytes(),
            ),
        decreases issues@.len() - i,
    {
        let range = instance_path_to_range(issues[i].pointer.as_str(), text);
        r.push(
            Diagnostic {
                range,
                severity: 1,
                code: String::from_str("schema-validation"),
                source: String::from_str("json-ls"),
                message: issues[i].message.clone(),
            },
        );
        i = i + 1;
    }
    r
}

/// The single syntax-error diagnostic: a one-character range at the reported
/// position, clamped to the document's lines, with the parser's message.
pub fn syntax_error_diagnostic(text: &str, line: u32, character: u32, message: &str) -> (d:
    Diagnostic)
    requires
        text.spec_bytes().len() <= 0xFFFF_FFFF,
    ensures
        spec_diag_common(d),
        d.code@ == "json-syntax"@,
        d.message@ == "JSON syntax error: "@ + message@,
        d.range.start.line as int == spec_clamped_line(text.spec_bytes(), line as int),
        d.range.end.line == d.range.start.line,
        d.range.start.character == character,
        d.range.end.character as int == clamp_u32(character as int + 1),
{
    let bytes: Vec<u8> = text.as_bytes_vec();
    let mut nl: u32 = 0;
    let mut p: usize = 0;
    while p < bytes.len()
        invariant
            p <= bytes@.len(),
            bytes@ == text.spec_bytes(),
            bytes@.len() <= 0xFFFF_FFFF,
            nl <= p,
            crate::position::spec_count_nl(bytes@, 0) == nl + crate::position::spec_count_nl(
                bytes@,
                p as int,
            ),
        decreases bytes@.len() - p,
    {
        if bytes[p] == 10u8 {
            nl = nl + 1;
        }
        p = p + 1;
    }
    proof {
        assert(crate::position::spec_count_nl(bytes@, p as int) == 0);
    }
    let l2: u32 = if line > nl {
        nl
    } else {
        line
    };
    let c2: u32 = character;
    let end_c: u32 = if c2 == 0xFFFF_FFFFu32 {
        c2
    } else {
        c2 + 1
    };
    let mut message_full = String::from_str("JSON syntax error: ");
    message_full.append(message);
    Diagnostic {
        range: LspRange {
            start: LspPosition { line: l2, character: c2 },
            end: LspPosition { line: l2, character: end_c },
        },
        severity: 1,
        code: String::from_str("json-syntax"),
        source: String::from_str("json-ls"),
        message: message_full,
    }
}

/// The reported line, clamped to the document's last line.
pub open spec fn spec_clamped_line(s: Seq<u8>, line: int) -> int {
    let nl = crate::position::spec_count_nl(s, 0);
    if line > nl {
        nl as int
    } else {
        line
    }
}

} // verus!
