//! Matching a text against a pattern with wildcards, as the `LIKE` of SQL
//! does.
//!
//! In a pattern `%` stands for any run of characters, the empty one too,
//! and `_` for any one character. A backslash takes the character after it
//! literally; a pattern that ends in a backslash that takes nothing matches
//! no text. Every other character stands for itself. The pattern has to
//! match the whole text.

use vstd::prelude::*;
use vstd::string::StringExecFns;

verus! {

/// Whether the text from position `i` on matches the pattern from position
/// `j` on.
pub open spec fn like_from(text: Seq<char>, i: int, pattern: Seq<char>, j: int) -> bool
    decreases pattern.len() - j, text.len() - i,
{
    if j >= pattern.len() {
        i >= text.len()
    } else if pattern[j] == '%' {
        like_from(text, i, pattern, j + 1) || (i < text.len() && like_from(
            text,
            i + 1,
            pattern,
            j,
        ))
    } else if pattern[j] == '\\' {
        j + 1 < pattern.len() && i < text.len() && text[i] == pattern[j + 1] && like_from(
            text,
            i + 1,
            pattern,
            j + 2,
        )
    } else {
        i < text.len() && (pattern[j] == '_' || pattern[j] == text[i]) && like_from(
            text,
            i + 1,
            pattern,
            j + 1,
        )
    }
}

/// Whether `text` matches `pattern`.
pub open spec fn like(text: Seq<char>, pattern: Seq<char>) -> bool {
    like_from(text, 0, pattern, 0)
}

/// The characters of a text.
pub fn chars_of(s: &str) -> (r: Vec<char>)
    ensures
        r@ == s@,
{
    let mut out: Vec<char> = Vec::new();
    for c in it: s.chars()
        invariant
            it.seq() == s@,
            out@ == it.seq().take(it.index() as int),
    {
        out.push(c);
        assert(it.seq().take(it.index() + 1) =~= it.seq().take(it.index() as int).push(c));
    }
    assert(out@ =~= s@);
    out
}

/// Whether `row` and `end` tell, for every position of the text, whether
/// the text from there on matches the pattern from `j` on; `end` speaks for
/// the position behind the last character.
spec fn tells(row: Seq<bool>, end: bool, text: Seq<char>, pattern: Seq<char>, j: int) -> bool {
    &&& row.len() == text.len()
    &&& end == like_from(text, text.len() as int, pattern, j)
    &&& forall|i: int| 0 <= i < text.len() ==> row[i] == like_from(text, i, pattern, j)
}

fn cell(row: &Vec<bool>, end: bool, i: usize) -> (r: bool)
    ensures
        r == (if i < row.len() {
            row[i as int]
        } else {
            end
        }),
{
    if i < row.len() {
        row[i]
    } else {
        end
    }
}

fn blank_row(n: usize) -> (row: Vec<bool>)
    ensures
        row.len() == n,
        forall|i: int| 0 <= i < n ==> !row[i],
{
    let mut row: Vec<bool> = Vec::new();
    let mut i: usize = 0;
    while i < n
        invariant
            i <= n,
            row.len() == i,
            forall|k: int| 0 <= k < i ==> !row[k],
        decreases n - i,
    {
        row.push(false);
        i += 1;
    }
    row
}

/// Whether the characters `text` match the characters `pattern`.
pub fn like_chars(text: &Vec<char>, pattern: &Vec<char>) -> (r: bool)
    ensures
        r == like(text@, pattern@),
{
    let n = text.len();
    let m = pattern.len();
    // What holds of the pattern from `j` on, and from `j + 1` on.
    let mut row = blank_row(n);
    let mut end = true;
    let mut row_after = blank_row(n);
    let mut end_after = true;
    let mut j = m;
    while j > 0
        invariant
            j <= m,
            n == text.len(),
            m == pattern.len(),
            tells(row@, end, text@, pattern@, j as int),
            j < m ==> tells(row_after@, end_after, text@, pattern@, j + 1),
        decreases j,
    {
        j -= 1;
        let c = pattern[j];
        let mut cur = blank_row(n);
        let cur_end = if c == '%' {
            end
        } else {
            false
        };
        let mut i = n;
        while i > 0
            invariant
                i <= n,
                j < m,
                n == text.len(),
                m == pattern.len(),
                c == pattern[j as int],
                cur.len() == n,
                cur_end == like_from(text@, n as int, pattern@, j as int),
                tells(row@, end, text@, pattern@, j + 1),
                j + 1 < m ==> tells(row_after@, end_after, text@, pattern@, j + 2),
                forall|k: int| i <= k < n ==> cur[k] == like_from(text@, k, pattern@, j as int),
            decreases i,
        {
            i -= 1;
            let value = if c == '%' {
                cell(&row, end, i) || cell(&cur, cur_end, i + 1)
            } else if c == '\\' {
                j + 1 < m && text[i] == pattern[j + 1] && cell(&row_after, end_after, i + 1)
            } else {
                (c == '_' || c == text[i]) && cell(&row, end, i + 1)
            };
            cur.set(i, value);
        }
        row_after = row;
        end_after = end;
        row = cur;
        end = cur_end;
    }
    cell(&row, end, 0)
}

/// Whether `text` matches `pattern`.
pub fn is_like(text: &str, pattern: &str) -> (r: bool)
    ensures
        r == like(text@, pattern@),
{
    let t = chars_of(text);
    let p = chars_of(pattern);
    like_chars(&t, &p)
}

/// The pattern that a filter stands for: the filter with `%%` before and
/// behind it, so that a text matches where a part of it matches the filter.
pub open spec fn filter_pattern(filter: Seq<char>) -> Seq<char> {
    "%%"@ + filter + "%%"@
}

/// The pattern that `filter` stands for.
pub fn pattern_of_filter(filter: &str) -> (r: String)
    ensures
        r@ == filter_pattern(filter@),
{
    String::from_str("%%").concat(filter).concat("%%")
}

} // verus!
