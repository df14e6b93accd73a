//! PDF text processing: extraction (through the pdf-extract crate), cleanup,
//! truncation at sentence boundaries, and title detection.
//!
//! All text functions work character-wise and every step is pinned to a
//! spec-level fold, so the extraction pipeline's contract states exactly
//! what text comes out for what went in.

use base64::Engine;
use vstd::prelude::*;
use vstd::string::StringExecFns;
use crate::strutil::{str_chars, string_from_chars};

verus! {

/// The Unicode whitespace characters (the set `char::is_whitespace` accepts).
pub open spec fn is_ws_char(c: char) -> bool {
    ||| c == ' '
    ||| c == '\t'
    ||| c == '\n'
    ||| c == '\r'
    ||| (c as u32) == 0x0B
    ||| (c as u32) == 0x0C
    ||| (c as u32) == 0x85
    ||| (c as u32) == 0xA0
    ||| (c as u32) == 0x1680
    ||| (0x2000 <= (c as u32) && (c as u32) <= 0x200A)
    ||| (c as u32) == 0x2028
    ||| (c as u32) == 0x2029
    ||| (c as u32) == 0x202F
    ||| (c as u32) == 0x205F
    ||| (c as u32) == 0x3000
}

fn is_whitespace_char(c: char) -> (r: bool)
    ensures
        r == is_ws_char(c),
{
    let u = c as u32;
    u == 0x20 || u == 0x09 || u == 0x0A || u == 0x0D || u == 0x0B || u == 0x0C || u == 0x85
        || u == 0xA0 || u == 0x1680 || (0x2000 <= u && u <= 0x200A) || u == 0x2028 || u == 0x2029
        || u == 0x202F || u == 0x205F || u == 0x3000
}

/// The control characters (Unicode category Cc).
pub open spec fn is_control_char(c: char) -> bool {
    (c as u32) < 0x20 || (0x7F <= (c as u32) && (c as u32) <= 0x9F)
}

fn is_control_char_exec(c: char) -> (r: bool)
    ensures
        r == is_control_char(c),
{
    let u = c as u32;
    u < 0x20 || (0x7F <= u && u <= 0x9F)
}

// ----------------------------------------------------------------------
// Trimming
// ----------------------------------------------------------------------

/// How many whitespace characters `s` starts with.
pub open spec fn leading_ws(s: Seq<char>) -> int
    decreases s.len(),
{
    if s.len() == 0 {
        0
    } else if is_ws_char(s[0]) {
        1 + leading_ws(s.drop_first())
    } else {
        0
    }
}

/// How many whitespace characters `s` ends with.
pub open spec fn trailing_ws(s: Seq<char>) -> int
    decreases s.len(),
{
    if s.len() == 0 {
        0
    } else if is_ws_char(s[s.len() - 1]) {
        1 + trailing_ws(s.drop_last())
    } else {
        0
    }
}

/// `s` with leading and trailing whitespace removed.
pub open spec fn trim_spec(s: Seq<char>) -> Seq<char> {
    if leading_ws(s) == s.len() {
        Seq::empty()
    } else {
        s.subrange(leading_ws(s), s.len() - trailing_ws(s))
    }
}

pub proof fn lemma_leading_ws(s: Seq<char>)
    ensures
        0 <= leading_ws(s) <= s.len(),
        forall|k: int| 0 <= k < leading_ws(s) ==> is_ws_char(s[k]),
        leading_ws(s) < s.len() ==> !is_ws_char(s[leading_ws(s)]),
    decreases s.len(),
{
    if s.len() > 0 && is_ws_char(s[0]) {
        lemma_leading_ws(s.drop_first());
        assert forall|k: int| 0 <= k < leading_ws(s) implies is_ws_char(s[k]) by {
            if k > 0 {
                assert(s.drop_first()[k - 1] == s[k]);
            }
        }
        if leading_ws(s) < s.len() {
            assert(s.drop_first()[leading_ws(s) - 1] == s[leading_ws(s)]);
        }
    }
}

pub proof fn lemma_trailing_ws(s: Seq<char>)
    ensures
        0 <= trailing_ws(s) <= s.len(),
        forall|k: int| s.len() - trailing_ws(s) <= k < s.len() ==> is_ws_char(s[k]),
        trailing_ws(s) < s.len() ==> !is_ws_char(s[s.len() - trailing_ws(s) - 1]),
    decreases s.len(),
{
    if s.len() > 0 && is_ws_char(s[s.len() - 1]) {
        lemma_trailing_ws(s.drop_last());
        assert forall|k: int| s.len() - trailing_ws(s) <= k < s.len() implies is_ws_char(
            s[k],
        ) by {
            if k < s.len() - 1 {
                assert(s.drop_last()[k] == s[k]);
            }
        }
        if trailing_ws(s) < s.len() {
            assert(s.drop_last()[s.len() - trailing_ws(s) - 1] == s[s.len() - trailing_ws(s)
                - 1]);
        }
    }
}

/// Remove leading and trailing whitespace.
pub fn trim_chars(v: &Vec<char>) -> (r: Vec<char>)
    ensures
        r@ == trim_spec(v@),
{
    proof {
        lemma_leading_ws(v@);
        lemma_trailing_ws(v@);
    }
    let n = v.len();
    let mut start: usize = 0;
    while start < n && is_whitespace_char(v[start])
        invariant
            start <= n,
            n == v@.len(),
            forall|k: int| 0 <= k < start ==> is_ws_char(v@[k]),
        decreases n - start,
    {
        start += 1;
    }
    proof {
        // start is exactly the leading-whitespace count
        if start < leading_ws(v@) {
            assert(is_ws_char(v@[start as int]));
            assert(false);
        }
        if leading_ws(v@) < start {
            assert(!is_ws_char(v@[leading_ws(v@)]));
            assert(false);
        }
    }
    if start == n {
        proof {
            assert(trim_spec(v@) =~= Seq::<char>::empty());
        }
        return Vec::new();
    }
    let mut end: usize = n;
    while end > start && is_whitespace_char(v[end - 1])
        invariant
            start <= end <= n,
            n == v@.len(),
            start < n,
            !is_ws_char(v@[start as int]),
            forall|k: int| end <= k < n ==> is_ws_char(v@[k]),
        decreases end,
    {
        end -= 1;
    }
    proof {
        // n - end is exactly the trailing-whitespace count
        if n - end < trailing_ws(v@) {
            assert(is_ws_char(v@[end - 1]));
            assert(false);
        }
        if trailing_ws(v@) < n - end {
            assert(v@.len() - trailing_ws(v@) <= (end as int) && (end as int) < v@.len());
            assert(is_ws_char(v@[end as int]));
            assert(false);
        }
    }
    let mut out: Vec<char> = Vec::new();
    let mut i: usize = start;
    while i < end
        invariant
            start <= i <= end <= n,
            n == v@.len(),
            out@ =~= v@.subrange(start as int, i as int),
        decreases end - i,
    {
        out.push(v[i]);
        i += 1;
    }
    proof {
        assert(out@ =~= trim_spec(v@));
    }
    out
}

// ----------------------------------------------------------------------
// Cleaning
// ----------------------------------------------------------------------

/// Does the accumulated output end in a paragraph break?
pub open spec fn ends_with_break(out: Seq<char>) -> bool {
    out.len() >= 2 && out[out.len() - 1] == '\n' && out[out.len() - 2] == '\n'
}

/// One step of the cleaning fold. The accumulator is the output so far plus
/// the two flags (previous was whitespace, previous was a newline).
pub open spec fn clean_step(acc: (Seq<char>, bool, bool), c: char) -> (Seq<char>, bool, bool) {
    if c == ' ' || c == '\t' {
        (
            if !acc.1 {
                acc.0.push(' ')
            } else {
                acc.0
            },
            true,
            false,
        )
    } else if c == '\n' || c == '\r' {
        if acc.2 {
            (
                if !ends_with_break(acc.0) {
                    acc.0.push('\n').push('\n')
                } else {
                    acc.0
                },
                true,
                true,
            )
        } else if !acc.1 {
            (acc.0.push(' '), true, true)
        } else {
            (acc.0, true, true)
        }
    } else if is_control_char(c) {
        acc
    } else {
        (acc.0.push(c), false, false)
    }
}

/// The cleaning fold over the first `i` characters of `s`.
pub open spec fn clean_fold(s: Seq<char>, i: int) -> (Seq<char>, bool, bool)
    decreases i,
{
    if i <= 0 {
        (Seq::empty(), false, false)
    } else {
        clean_step(clean_fold(s, i - 1), s[i - 1])
    }
}

/// The cleaned form of `s`: whitespace runs collapsed to single spaces,
/// paragraph breaks kept as exactly one blank line, control characters
/// dropped, and the ends trimmed.
pub open spec fn clean_text_spec(s: Seq<char>) -> Seq<char> {
    trim_spec(clean_fold(s, s.len() as int).0)
}

/// Clean up extracted text by normalizing whitespace and removing artifacts.
pub fn clean_text(text: &str) -> (r: String)
    ensures
        r@ == clean_text_spec(text@),
{
    let v = str_chars(text);
    let n = v.len();
    let mut out: Vec<char> = Vec::new();
    let mut prev_ws = false;
    let mut prev_nl = false;
    let mut i: usize = 0;
    while i < n
        invariant
            i <= n,
            n == v@.len(),
            (out@, prev_ws, prev_nl) == clean_fold(v@, i as int),
        decreases n - i,
    {
        let c = v[i];
        if c == ' ' || c == '\t' {
            if !prev_ws {
                out.push(' ');
            }
            prev_ws = true;
            prev_nl = false;
        } else if c == '\n' || c == '\r' {
            if prev_nl {
                let len = out.len();
                let has_break = len >= 2 && out[len - 1] == '\n' && out[len - 2] == '\n';
                if !has_break {
                    out.push('\n');
                    out.push('\n');
                }
            } else if !prev_ws {
                out.push(' ');
            }
            prev_ws = true;
            prev_nl = true;
        } else if is_control_char_exec(c) {
            // dropped
        } else {
            out.push(c);
            prev_ws = false;
            prev_nl = false;
        }
        i += 1;
    }
    let trimmed = trim_chars(&out);
    string_from_chars(&trimmed)
}

// ----------------------------------------------------------------------
// Truncation
// ----------------------------------------------------------------------

/// Sentence-ending punctuation.
pub open spec fn is_sentence_end(c: char) -> bool {
    c == '.' || c == '!' || c == '?'
}

/// The last position in `[lo, hi)` holding sentence-ending punctuation, or -1.
pub open spec fn last_sentence_end_in(s: Seq<char>, lo: int, hi: int) -> int
    decreases hi - lo,
{
    if hi <= lo || hi > s.len() || lo < 0 {
        -1
    } else if is_sentence_end(s[hi - 1]) {
        hi - 1
    } else {
        last_sentence_end_in(s, lo, hi - 1)
    }
}

/// The last whitespace position in `[lo, hi)`, or -1.
pub open spec fn last_ws_in(s: Seq<char>, lo: int, hi: int) -> int
    decreases hi - lo,
{
    if hi <= lo || hi > s.len() || lo < 0 {
        -1
    } else if is_ws_char(s[hi - 1]) {
        hi - 1
    } else {
        last_ws_in(s, lo, hi - 1)
    }
}

/// `s` truncated to at most `max_len` characters: cut at the last sentence
/// end in the final tenth of the window if there is one, otherwise at the
/// last word boundary, otherwise hard; the kept text is trimmed and an
/// ellipsis appended. Text already short enough is returned unchanged.
pub open spec fn truncate_spec(s: Seq<char>, max_len: int) -> Seq<char> {
    if s.len() <= max_len {
        s
    } else {
        let start9 = max_len * 9 / 10;
        let se = last_sentence_end_in(s, start9, max_len);
        if se >= 0 {
            trim_spec(s.take(se + 1)) + "..."@
        } else {
            let w = last_ws_in(s, 0, max_len);
            if w >= 0 {
                trim_spec(s.take(w)) + "..."@
            } else {
                trim_spec(s.take(max_len)) + "..."@
            }
        }
    }
}

fn take_trim_ellipsis(v: &Vec<char>, upto: usize) -> (r: String)
    requires
        upto <= v@.len(),
    ensures
        r@ == trim_spec(v@.take(upto as int)) + "..."@,
{
    let mut head: Vec<char> = Vec::new();
    let mut i: usize = 0;
    while i < upto
        invariant
            i <= upto <= v@.len(),
            head@ =~= v@.take(upto as int).take(i as int),
        decreases upto - i,
    {
        proof {
            assert(v@.take(upto as int)[i as int] == v@[i as int]);
        }
        head.push(v[i]);
        i += 1;
    }
    proof {
        assert(head@ =~= v@.take(upto as int));
    }
    let trimmed = trim_chars(&head);
    let mut s = string_from_chars(&trimmed);
    s.append("...");
    s
}

/// Truncate text at a sentence boundary.
pub fn truncate_at_sentence(text: &str, max_len: usize) -> (r: String)
    ensures
        r@ == truncate_spec(text@, max_len as int),
{
    let v = str_chars(text);
    let n = v.len();
    if n <= max_len {
        return text.to_owned();
    }
    let start9: usize = ((max_len as u128) * 9 / 10) as usize;
    proof {
        vstd::arithmetic::div_mod::lemma_div_pos_is_pos((max_len as int) * 9, 10);
        vstd::arithmetic::mul::lemma_mul_nonnegative(max_len as int, 9);
        crate::fixed::lemma_muldiv_bound(max_len as int, 9, 10, max_len as int);
    }
    // search for the last sentence end in [start9, max_len)
    let mut i: usize = max_len;
    let mut found: Option<usize> = None;
    while i > start9 && found.is_none()
        invariant
            start9 <= i <= max_len,
            max_len < n == v@.len(),
            found is None ==> last_sentence_end_in(v@, start9 as int, max_len as int)
                == last_sentence_end_in(v@, start9 as int, i as int),
            found matches Some(p) ==> last_sentence_end_in(v@, start9 as int, max_len as int)
                == p && p < max_len,
        decreases i,
    {
        i -= 1;
        if v[i] == '.' || v[i] == '!' || v[i] == '?' {
            found = Some(i);
        }
    }
    match found {
        Some(p) => {
            proof {
                assert(last_sentence_end_in(v@, start9 as int, max_len as int) == p);
            }
            take_trim_ellipsis(&v, p + 1)
        },
        None => {
            proof {
                assert(last_sentence_end_in(v@, start9 as int, start9 as int) == -1);
            }
            // no sentence boundary: fall back to the last word boundary
            let mut j: usize = max_len;
            let mut w: Option<usize> = None;
            while j > 0 && w.is_none()
                invariant
                    j <= max_len < n == v@.len(),
                    w is None ==> last_ws_in(v@, 0, max_len as int) == last_ws_in(
                        v@,
                        0,
                        j as int,
                    ),
                    w matches Some(p) ==> last_ws_in(v@, 0, max_len as int) == p && p < max_len,
                decreases j,
            {
                j -= 1;
                if is_whitespace_char(v[j]) {
                    w = Some(j);
                }
            }
            match w {
                Some(p) => take_trim_ellipsis(&v, p),
                None => {
                    proof {
                        assert(last_ws_in(v@, 0, 0) == -1);
                    }
                    take_trim_ellipsis(&v, max_len)
                },
            }
        },
    }
}

// ----------------------------------------------------------------------
// Page estimate and title
// ----------------------------------------------------------------------

/// The rough page estimate: one page per 2500 characters, at least one.
pub open spec fn page_count_spec(s: Seq<char>) -> int {
    if s.len() / 2500 < 1 {
        1
    } else {
        s.len() as int / 2500
    }
}

/// Estimate page count from text (rough heuristic).
pub fn estimate_page_count(text: &str) -> (r: usize)
    ensures
        r == page_count_spec(text@),
{
    let v = str_chars(text);
    let pages = v.len() / 2500;
    if pages < 1 {
        1
    } else {
        pages
    }
}

/// The first line of `s`: everything before the first newline, with a
/// trailing carriage return stripped.
pub open spec fn first_line_spec(s: Seq<char>) -> Seq<char> {
    let nl = crate::provider::first_index_of(s, '\n');
    let raw = if nl < 0 {
        s
    } else {
        s.take(nl)
    };
    if raw.len() > 0 && raw[raw.len() - 1] == '\r' {
        raw.drop_last()
    } else {
        raw
    }
}

/// A plausible title: the trimmed first line when it is 5 to 100 characters
/// long and does not end in '.' or ','.
pub open spec fn title_spec(s: Seq<char>) -> Option<Seq<char>> {
    if s.len() == 0 {
        None
    } else {
        let line = trim_spec(first_line_spec(s));
        if 5 <= line.len() <= 100 && line[line.len() - 1] != '.' && line[line.len() - 1] != ',' {
            Some(line)
        } else {
            None
        }
    }
}

/// Try to extract a title from the beginning of the text.
pub fn extract_title(text: &str) -> (r: Option<String>)
    ensures
        match r {
            Some(t) => title_spec(text@) == Some(t@),
            None => title_spec(text@) is None,
        },
{
    let v = str_chars(text);
    if v.len() == 0 {
        return None;
    }
    let nl = crate::provider::find_first(&v, '\n');
    proof {
        crate::provider::lemma_first_index_of(v@, '\n');
    }
    let end: usize = match nl {
        Some(p) => p,
        None => v.len(),
    };
    let mut raw: Vec<char> = Vec::new();
    let mut i: usize = 0;
    while i < end
        invariant
            i <= end <= v@.len(),
            raw@ =~= v@.take(end as int).take(i as int),
        decreases end - i,
    {
        proof {
            assert(v@.take(end as int)[i as int] == v@[i as int]);
        }
        raw.push(v[i]);
        i += 1;
    }
    proof {
        assert(raw@ =~= v@.take(end as int));
        if nl is None {
            assert(v@.take(v@.len() as int) =~= v@);
        }
    }
    let rawlen = raw.len();
    if rawlen > 0 && raw[rawlen - 1] == '\r' {
        raw.pop();
        proof {
            assert(raw@ =~= first_line_spec(v@));
        }
    }
    proof {
        assert(raw@ =~= first_line_spec(v@));
    }
    let line = trim_chars(&raw);
    let len = line.len();
    if 5 <= len && len <= 100 && line[len - 1] != '.' && line[len - 1] != ',' {
        Some(string_from_chars(&line))
    } else {
        None
    }
}


// ----------------------------------------------------------------------
// Extraction
// ----------------------------------------------------------------------

/// Errors that can occur during PDF processing.
#[derive(Debug)]
pub enum PdfError {
    /// The PDF could not be parsed for text.
    ExtractionError(String),
    /// The PDF held no extractable text worth keeping.
    EmptyContent,
    /// The file exceeds the size limit (reported in whole megabytes).
    TooLarge { max_mb: usize },
    /// The PDF structure is invalid.
    InvalidFormat(String),
    /// The base64 payload could not be decoded.
    Base64Error(String),
}

/// Configuration for PDF processing.
#[derive(Debug, Clone)]
pub struct PdfConfig {
    /// Maximum PDF file size in bytes.
    pub max_size: usize,
    /// Minimum text length (characters) to consider valid.
    pub min_text_length: usize,
    /// Maximum text length (characters) to return; longer text is truncated.
    pub max_text_length: usize,
}

impl Default for PdfConfig {
    /// 50 MB files at most, at least 100 characters of text, at most 500000.
    fn default() -> (r: PdfConfig)
        ensures
            r.max_size == 52_428_800,
            r.min_text_length == 100,
            r.max_text_length == 500_000,
    {
        PdfConfig { max_size: 50 * 1024 * 1024, min_text_length: 100, max_text_length: 500_000 }
    }
}

/// Result of PDF text extraction.
#[derive(Debug)]
pub struct PdfContent {
    /// Extracted, cleaned (and possibly truncated) text.
    pub text: String,
    /// Rough page count estimated from the raw text.
    pub page_count: usize,
    /// Whether the text was truncated.
    pub truncated: bool,
    /// Extracted title, if the first line looks like one.
    pub title: Option<String>,
}

/// The bytes a base64 string decodes to under the standard alphabet; it
/// depends on the characters alone, None exactly on invalid input.
pub uninterp spec fn base64_decoded(s: Seq<char>) -> Option<Seq<u8>>;

/// Relies on base64's standard-alphabet engine: decodes a base64 string,
/// failing exactly on input that is not valid standard base64.
#[verifier::external_body]
fn decode_base64(data: &str) -> (r: Result<Vec<u8>, String>)
    ensures
        match r {
            Ok(v) => base64_decoded(data@) == Some(v@),
            Err(_) => base64_decoded(data@) is None,
        },
{
    match base64::engine::general_purpose::STANDARD.decode(data) {
        Ok(v) => Ok(v),
        Err(e) => Err(e.to_string()),
    }
}

/// Decode the base64 payload a PDF arrives in.
pub fn decode_pdf_base64(data: &str) -> (r: Result<Vec<u8>, PdfError>)
    ensures
        base64_decoded(data@) is Some ==> (r matches Ok(v) && Some(v@) == base64_decoded(data@)),
        base64_decoded(data@) is None ==> r matches Err(PdfError::Base64Error(_)),
{
    match decode_base64(data) {
        Ok(v) => Ok(v),
        Err(e) => Err(PdfError::Base64Error(e)),
    }
}

/// What `extract_text` produces for an extracted text `t` under
/// configuration limits: the cleaned text, truncated when over the limit.
pub open spec fn final_text_spec(t: Seq<char>, max_text_length: int) -> Seq<char> {
    let cleaned = clean_text_spec(t);
    if cleaned.len() > max_text_length {
        truncate_spec(cleaned, max_text_length)
    } else {
        cleaned
    }
}

/// Extract the usable text content of a PDF file.
///
/// `extraction` is the raw text the caller's PDF extractor produced for
/// exactly these bytes, or its failure. The extractor is outside work whose
/// failures (including aborts on malformed documents) the embedding
/// application must isolate; everything after it — size limit, cleanup,
/// length checks, truncation, page estimate, title — is decided here.
///
/// Fails with `TooLarge` on oversized input (checked before the extraction
/// outcome is looked at), `ExtractionError` carrying the extractor's own
/// failure text, and `EmptyContent` when the cleaned text is shorter than
/// the configured minimum; otherwise returns the cleaned (possibly
/// truncated) text with the page estimate and detected title.
pub fn extract_text(
    pdf_bytes: &[u8],
    extraction: Result<String, String>,
    config: Option<&PdfConfig>,
) -> (r: Result<PdfContent, PdfError>)
    ensures
        ({
            let max_size = match config {
                Some(c) => c.max_size as int,
                None => 52_428_800int,
            };
            let min_len = match config {
                Some(c) => c.min_text_length as int,
                None => 100int,
            };
            let max_len = match config {
                Some(c) => c.max_text_length as int,
                None => 500_000int,
            };
            &&& (pdf_bytes@.len() > max_size ==> (r matches Err(PdfError::TooLarge { max_mb })
                && max_mb == max_size / 1_048_576))
            &&& (extraction matches Err(e) ==> (pdf_bytes@.len() <= max_size ==> (r matches Err(
                PdfError::ExtractionError(e2),
            ) && e2@ == e@)))
            &&& (extraction matches Ok(raw) ==> (pdf_bytes@.len() <= max_size ==> {
                let t = raw@;
                let cleaned = clean_text_spec(t);
                &&& (cleaned.len() < min_len ==> r matches Err(PdfError::EmptyContent))
                &&& (cleaned.len() >= min_len ==> (r matches Ok(content) && {
                    &&& content.text@ == final_text_spec(t, max_len)
                    &&& content.truncated == (cleaned.len() > max_len)
                    &&& content.page_count == page_count_spec(t)
                    &&& (match content.title {
                        Some(ti) => title_spec(final_text_spec(t, max_len)) == Some(ti@),
                        None => title_spec(final_text_spec(t, max_len)) is None,
                    })
                }))
            }))
        }),
{
    let def = PdfConfig::default();
    let cfg: &PdfConfig = match config {
        Some(c) => c,
        None => &def,
    };
    if pdf_bytes.len() > cfg.max_size {
        return Err(PdfError::TooLarge { max_mb: cfg.max_size / (1024 * 1024) });
    }
    let raw = match extraction {
        Ok(t) => t,
        Err(e) => {
            return Err(PdfError::ExtractionError(e));
        },
    };
    let cleaned = clean_text(raw.as_str());
    let cleaned_chars = str_chars(cleaned.as_str());
    if cleaned_chars.len() < cfg.min_text_length {
        return Err(PdfError::EmptyContent);
    }
    let truncated = cleaned_chars.len() > cfg.max_text_length;
    let final_text: String = if truncated {
        truncate_at_sentence(cleaned.as_str(), cfg.max_text_length)
    } else {
        cleaned
    };
    let page_count = estimate_page_count(raw.as_str());
    let title = extract_title(final_text.as_str());
    Ok(PdfContent { text: final_text, page_count, truncated, title })
}

} // verus!
