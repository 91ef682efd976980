//! The writing extractor: pulls the canonical lexical form out of a candidate
//! writing block, which may also carry bracketed furigana and digit
//! annotations.
//!
//! The block is cut into maximal runs of plain characters (no digits, no
//! `【`/`】` brackets, no whitespace). The extracted writing is the first such
//! run that is terminated either by the end of the block or by a single
//! whitespace character directly followed by `【`; when no run qualifies, the
//! extraction fails.

use vstd::prelude::*;
use crate::error::Error;
use crate::text::chars_vec;
use crate::text::is_ws;
use crate::text::is_ws_char;
use crate::text::string_from_chars;

verus! {

/// A character that may stand inside an extracted writing: not a decimal
/// digit, not one of the brackets `【` and `】`, and not whitespace.
pub open spec fn is_run_char(c: char) -> bool {
    &&& !('0' <= c && c <= '9')
    &&& c != '\u{3010}'
    &&& c != '\u{3011}'
    &&& !is_ws_char(c)
}

/// Decides [`is_run_char`].
fn is_run_char_exec(c: char) -> (r: bool)
    ensures
        r == is_run_char(c),
{
    !('0' <= c && c <= '9') && c != '\u{3010}' && c != '\u{3011}' && !is_ws(c)
}

/// The end of the maximal run of plain characters beginning at `i`.
pub open spec fn run_end(s: Seq<char>, i: int) -> int
    decreases s.len() - i when 0 <= i <= s.len()
{
    if i >= s.len() {
        i
    } else if is_run_char(s[i]) {
        run_end(s, i + 1)
    } else {
        i
    }
}

/// What [`run_end`] returns: the first position at or after `i` that ends the
/// run.
pub proof fn lemma_run_end(s: Seq<char>, i: int)
    requires
        0 <= i <= s.len(),
    ensures
        i <= run_end(s, i) <= s.len(),
        forall|k: int| i <= k < run_end(s, i) ==> #[trigger] is_run_char(s[k]),
        run_end(s, i) < s.len() ==> !is_run_char(s[run_end(s, i)]),
    decreases s.len() - i,
{
    if i < s.len() && is_run_char(s[i]) {
        lemma_run_end(s, i + 1);
    }
}

/// A run ending exactly where the plain characters end.
pub proof fn lemma_run_end_is(s: Seq<char>, i: int, j: int)
    requires
        0 <= i <= j <= s.len(),
        forall|k: int| i <= k < j ==> #[trigger] is_run_char(s[k]),
        j == s.len() || !is_run_char(s[j]),
    ensures
        run_end(s, i) == j,
    decreases j - i,
{
    if i < j {
        lemma_run_end_is(s, i + 1, j);
    }
}

/// A run ending at `j` is extracted when the block ends there, or when a
/// single whitespace character directly followed by `【` comes next.
pub open spec fn terminator_at(s: Seq<char>, j: int) -> bool {
    ||| j == s.len()
    ||| (is_ws_char(s[j]) && j + 1 < s.len() && s[j + 1] == '\u{3010}')
}

/// The extraction result when scanning starts at position `i`: the first
/// qualifying run at or after `i`, if any.
pub open spec fn extract_from(s: Seq<char>, i: int) -> Option<Seq<char>>
    decreases s.len() - i when 0 <= i <= s.len()
    via extract_from_decreases
{
    if i >= s.len() {
        None
    } else if is_run_char(s[i]) {
        if terminator_at(s, run_end(s, i)) {
            Some(s.subrange(i, run_end(s, i)))
        } else {
            extract_from(s, run_end(s, i))
        }
    } else {
        extract_from(s, i + 1)
    }
}

#[via_fn]
proof fn extract_from_decreases(s: Seq<char>, i: int) {
    if 0 <= i < s.len() && is_run_char(s[i]) {
        lemma_run_end(s, i + 1);
        assert(run_end(s, i) == run_end(s, i + 1));
    }
}

/// What the writing extractor yields on a whole block.
pub open spec fn extract_spec(s: Seq<char>) -> Option<Seq<char>> {
    extract_from(s, 0)
}

/// Extracts the canonical writing from a candidate block: the first maximal
/// run of plain characters that is terminated by the end of the block or by
/// whitespace directly followed by `【`. Fails when no run qualifies, for
/// example on an empty block or one made only of digits and brackets.
pub fn extract_writing(text: &str) -> (r: Result<String, Error>)
    ensures
        match r {
            Ok(w) => extract_spec(text@) == Some(w@),
            Err(e) => e == Error::ExtractionError && extract_spec(text@) is None,
        },
{
    let chars = chars_vec(text);
    let n = chars.len();
    let mut i: usize = 0;
    while i < n
        invariant
            n == chars@.len(),
            chars@ == text@,
            i <= n,
            extract_from(chars@, i as int) == extract_spec(text@),
        decreases n - i,
    {
        if is_run_char_exec(chars[i]) {
            let start = i;
            let mut j = i + 1;
            while j < n && is_run_char_exec(chars[j])
                invariant
                    n == chars@.len(),
                    start < j <= n,
                    forall|k: int| start <= k < j ==> #[trigger] is_run_char(chars@[k]),
                decreases n - j,
            {
                j = j + 1;
            }
            proof {
                lemma_run_end_is(chars@, start as int, j as int);
            }
            let terminated = if j == n {
                true
            } else {
                is_ws(chars[j]) && j + 1 < n && chars[j + 1] == '\u{3010}'
            };
            if terminated {
                let mut out: Vec<char> = Vec::new();
                let mut k = start;
                while k < j
                    invariant
                        n == chars@.len(),
                        start <= k <= j <= n,
                        out@ == chars@.subrange(start as int, k as int),
                    decreases j - k,
                {
                    out.push(chars[k]);
                    assert(out@ =~= chars@.subrange(start as int, k + 1));
                    k = k + 1;
                }
                return Ok(string_from_chars(&out));
            } else {
                proof {
                    assert(extract_from(chars@, i as int) == extract_from(chars@, j as int));
                }
                i = j;
            }
        } else {
            proof {
                assert(extract_from(chars@, i as int) == extract_from(chars@, i + 1));
            }
            i = i + 1;
        }
    }
    Err(Error::ExtractionError)
}

} // verus!
