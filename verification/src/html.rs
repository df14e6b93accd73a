//! Plain-text extraction from fetched HTML: tag stripping and title lookup.

use vstd::prelude::*;
use crate::strutil::{str_chars, string_from_chars};
use crate::text::{is_ws_char, trim_spec};

verus! {

// ----------------------------------------------------------------------
// Tag stripping
// ----------------------------------------------------------------------

/// One step of tag removal. The accumulator is the output so far and
/// whether the scan is inside a tag.
pub open spec fn strip_step(acc: (Seq<char>, bool), c: char) -> (Seq<char>, bool) {
    if c == '<' {
        (acc.0, true)
    } else if c == '>' {
        (acc.0, false)
    } else if acc.1 {
        acc
    } else {
        (acc.0.push(c), false)
    }
}

/// Tag removal over the first `i` characters of `s`.
pub open spec fn strip_fold(s: Seq<char>, i: int) -> (Seq<char>, bool)
    decreases i,
{
    if i <= 0 {
        (Seq::empty(), false)
    } else {
        strip_step(strip_fold(s, i - 1), s[i - 1])
    }
}

/// One step of whitespace normalisation: runs of whitespace become a single
/// separating space, with no space at either end.
pub open spec fn ws_join_step(acc: (Seq<char>, bool), c: char) -> (Seq<char>, bool) {
    if is_ws_char(c) {
        (acc.0, true)
    } else {
        (
            if acc.1 && acc.0.len() > 0 {
                acc.0.push(' ').push(c)
            } else {
                acc.0.push(c)
            },
            false,
        )
    }
}

/// Whitespace normalisation over the first `i` characters of `s`.
pub open spec fn ws_join_fold(s: Seq<char>, i: int) -> (Seq<char>, bool)
    decreases i,
{
    if i <= 0 {
        (Seq::empty(), false)
    } else {
        ws_join_step(ws_join_fold(s, i - 1), s[i - 1])
    }
}

/// The text of `s` with markup tags removed and whitespace normalised to
/// single separating spaces.
pub open spec fn strip_tags_spec(s: Seq<char>) -> Seq<char> {
    let stripped = strip_fold(s, s.len() as int).0;
    ws_join_fold(stripped, stripped.len() as int).0
}

/// Strip markup tags and collapse the remaining text's whitespace into
/// single separating spaces.
pub fn strip_html_tags(html: &str) -> (r: String)
    ensures
        r@ == strip_tags_spec(html@),
{
    let v = str_chars(html);
    let n = v.len();
    let mut stripped: Vec<char> = Vec::new();
    let mut in_tag = false;
    let mut i: usize = 0;
    while i < n
        invariant
            i <= n,
            n == v@.len(),
            (stripped@, in_tag) == strip_fold(v@, i as int),
        decreases n - i,
    {
        let c = v[i];
        if c == '<' {
            in_tag = true;
        } else if c == '>' {
            in_tag = false;
        } else if in_tag {
            // inside a tag: dropped
        } else {
            stripped.push(c);
        }
        i += 1;
    }
    let m = stripped.len();
    let mut out: Vec<char> = Vec::new();
    let mut pending = false;
    let mut j: usize = 0;
    while j < m
        invariant
            j <= m,
            m == stripped@.len(),
            (out@, pending) == ws_join_fold(stripped@, j as int),
        decreases m - j,
    {
        let c = stripped[j];
        if is_whitespace(c) {
            pending = true;
        } else {
            if pending && out.len() > 0 {
                out.push(' ');
            }
            out.push(c);
            pending = false;
        }
        j += 1;
    }
    string_from_chars(&out)
}

fn is_whitespace(c: char) -> (r: bool)
    ensures
        r == is_ws_char(c),
{
    let u = c as u32;
    u == 0x20 || u == 0x09 || u == 0x0A || u == 0x0D || u == 0x0B || u == 0x0C || u == 0x85
        || u == 0xA0 || u == 0x1680 || (0x2000 <= u && u <= 0x200A) || u == 0x2028 || u == 0x2029
        || u == 0x202F || u == 0x205F || u == 0x3000
}

// ----------------------------------------------------------------------
// Title lookup
// ----------------------------------------------------------------------

/// The uppercase twin of the lowercase letters the title tags use.
pub open spec fn upper_twin(p: char) -> char {
    if p == 't' {
        'T'
    } else if p == 'i' {
        'I'
    } else if p == 'l' {
        'L'
    } else if p == 'e' {
        'E'
    } else {
        p
    }
}

/// Case-insensitive match of one text character against a pattern character.
pub open spec fn ci_match(c: char, p: char) -> bool {
    c == p || (upper_twin(p) != p && c == upper_twin(p))
}

/// The pattern matches case-insensitively at position `i`.
pub open spec fn ci_match_at(s: Seq<char>, pat: Seq<char>, i: int) -> bool {
    &&& 0 <= i
    &&& i + pat.len() <= s.len()
    &&& forall|k: int| 0 <= k < pat.len() ==> ci_match(s[i + k], #[trigger] pat[k])
}

/// The first case-insensitive occurrence of the pattern at or after `i`, or -1.
pub open spec fn first_ci_from(s: Seq<char>, pat: Seq<char>, i: int) -> int
    decreases s.len() - i,
    when 0 <= i <= s.len()
{
    if i + pat.len() > s.len() {
        -1
    } else if ci_match_at(s, pat, i) {
        i
    } else {
        first_ci_from(s, pat, i + 1)
    }
}

fn ci_eq(c: char, p: char) -> (r: bool)
    ensures
        r == ci_match(c, p),
{
    if c == p {
        true
    } else if p == 't' {
        c == 'T'
    } else if p == 'i' {
        c == 'I'
    } else if p == 'l' {
        c == 'L'
    } else if p == 'e' {
        c == 'E'
    } else {
        false
    }
}

fn find_ci(v: &Vec<char>, pat: &Vec<char>) -> (r: Option<usize>)
    requires
        pat@.len() >= 1,
    ensures
        match r {
            Some(i) => i == first_ci_from(v@, pat@, 0) && i + pat@.len() <= v@.len(),
            None => first_ci_from(v@, pat@, 0) == -1,
        },
{
    let n = v.len();
    let plen = pat.len();
    if plen > n {
        return None;
    }
    let mut i: usize = 0;
    while i <= n - plen
        invariant
            i <= n - plen + 1,
            1 <= plen == pat@.len(),
            n == v@.len(),
            plen <= n,
            first_ci_from(v@, pat@, 0) == first_ci_from(v@, pat@, i as int),
        decreases n - i,
    {
        let mut k: usize = 0;
        let mut matched = true;
        while k < plen && matched
            invariant
                k <= plen,
                plen == pat@.len(),
                n == v@.len(),
                i + plen <= n,
                matched ==> forall|k2: int| 0 <= k2 < k ==> ci_match(
                    v@[i + k2],
                    #[trigger] pat@[k2],
                ),
                !matched ==> !ci_match_at(v@, pat@, i as int),
            decreases plen - k,
        {
            if !ci_eq(v[i + k], pat[k]) {
                proof {
                    assert(!ci_match(v@[i as int + k as int], pat@[k as int]));
                }
                matched = false;
            }
            k += 1;
        }
        if matched {
            proof {
                assert(ci_match_at(v@, pat@, i as int));
            }
            return Some(i);
        }
        i += 1;
    }
    proof {
        assert(i as int + pat@.len() > v@.len());
    }
    None
}

/// Where the title text starts and ends in `s`: just after the first opening
/// title tag, through the first closing title tag, when both exist in that
/// order.
pub open spec fn title_range_spec(s: Seq<char>) -> Option<(int, int)> {
    let start = first_ci_from(s, "<title>"@, 0);
    let end = first_ci_from(s, "</title>"@, 0);
    if start >= 0 && end >= 0 && start + 7 < end {
        Some((start + 7, end))
    } else {
        None
    }
}

/// Find the document title: the trimmed text between the title tags, when
/// the document has them (matched case-insensitively).
pub fn extract_title(html: &str) -> (r: Option<String>)
    ensures
        match r {
            Some(t) => title_range_spec(html@) matches Some(range) && t@ == trim_spec(
                html@.subrange(range.0, range.1),
            ),
            None => title_range_spec(html@) is None,
        },
{
    proof {
        reveal_strlit("<title>");
        reveal_strlit("</title>");
    }
    let v = str_chars(html);
    let open_pat: Vec<char> = vec!['<', 't', 'i', 't', 'l', 'e', '>'];
    let close_pat: Vec<char> = vec!['<', '/', 't', 'i', 't', 'l', 'e', '>'];
    proof {
        assert(open_pat@ =~= "<title>"@);
        assert(close_pat@ =~= "</title>"@);
    }
    let start = match find_ci(&v, &open_pat) {
        Some(i) => i,
        None => {
            return None;
        },
    };
    let end = match find_ci(&v, &close_pat) {
        Some(i) => i,
        None => {
            return None;
        },
    };
    if start + 7 < end {
        let mut body: Vec<char> = Vec::new();
        let mut i: usize = start + 7;
        while i < end
            invariant
                start + 7 <= i <= end,
                end <= v@.len(),
                body@ =~= v@.subrange(start as int + 7, i as int),
            decreases end - i,
        {
            body.push(v[i]);
            i += 1;
        }
        let trimmed = crate::text::trim_chars(&body);
        Some(string_from_chars(&trimmed))
    } else {
        None
    }
}

} // verus!
