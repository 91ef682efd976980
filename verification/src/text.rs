//! Pure string transforms used to compare a row's reading against its
//! candidate writings: separator stripping, truncation at the alternate
//! reading marker, whitespace trimming and substring search.
//!
//! The remote page renders the same logical word with inconsistent whitespace
//! and separator characters in the reading element and in the alternatives
//! list, so the two are normalized before any comparison.

use vstd::prelude::*;
use vstd::seq_lib::group_filter_ensures;

verus! {

/// A character of the Unicode White_Space class, written out code point by
/// code point.
pub open spec fn is_ws_char(c: char) -> bool {
    ||| c as u32 == 0x9
    ||| c as u32 == 0xa
    ||| c as u32 == 0xb
    ||| c as u32 == 0xc
    ||| c as u32 == 0xd
    ||| c as u32 == 0x20
    ||| c as u32 == 0x85
    ||| c as u32 == 0xa0
    ||| c as u32 == 0x1680
    ||| (0x2000 <= c as u32 && c as u32 <= 0x200a)
    ||| c as u32 == 0x2028
    ||| c as u32 == 0x2029
    ||| c as u32 == 0x202f
    ||| c as u32 == 0x205f
    ||| c as u32 == 0x3000
}

/// Decides whether `c` is whitespace, in the sense of [`is_ws_char`].
pub fn is_ws(c: char) -> (r: bool)
    ensures
        r == is_ws_char(c),
{
    let u = c as u32;
    u == 0x9 || u == 0xa || u == 0xb || u == 0xc || u == 0xd || u == 0x20 || u == 0x85
        || u == 0xa0 || u == 0x1680 || (0x2000 <= u && u <= 0x200a) || u == 0x2028 || u == 0x2029
        || u == 0x202f || u == 0x205f || u == 0x3000
}

/// A separator character that normalization removes: the zero-width space,
/// the ordinary space, or the middle dot used as a syllable separator in some
/// alternative-writing displays.
pub open spec fn is_separator_char(c: char) -> bool {
    c == '\u{200b}' || c == ' ' || c == '\u{b7}'
}

/// The characters that separator stripping keeps.
pub open spec fn kept_pred() -> spec_fn(char) -> bool {
    |c: char| !is_separator_char(c)
}

/// `s` with every zero-width space, ordinary space and middle dot removed.
pub open spec fn strip_separators_spec(s: Seq<char>) -> Seq<char> {
    s.filter(kept_pred())
}

/// The characters that zero-width-space stripping keeps.
pub open spec fn zwsp_kept_pred() -> spec_fn(char) -> bool {
    |c: char| c != '\u{200b}'
}

/// `s` with every zero-width space removed, everything else kept.
pub open spec fn strip_zwsp_spec(s: Seq<char>) -> Seq<char> {
    s.filter(zwsp_kept_pred())
}

/// `i` is the position of the first `/` in `s`.
pub open spec fn is_first_slash(s: Seq<char>, i: int) -> bool {
    &&& 0 <= i < s.len()
    &&& s[i] == '/'
    &&& forall|j: int| 0 <= j < i ==> s[j] != '/'
}

/// The position of the first `/` in `s`; meaningful only when `s` has one.
pub open spec fn first_slash_index(s: Seq<char>) -> int {
    choose|i: int| is_first_slash(s, i)
}

/// `s` cut off just before its first `/`, or `s` itself when it has none.
pub open spec fn truncate_at_slash_spec(s: Seq<char>) -> Seq<char> {
    if s.contains('/') {
        s.take(first_slash_index(s))
    } else {
        s
    }
}

/// The normal form used to compare a reading against candidate writings:
/// separators stripped, then everything from the first `/` (the alternate
/// reading marker) on dropped.
pub open spec fn normalize_spec(s: Seq<char>) -> Seq<char> {
    truncate_at_slash_spec(strip_separators_spec(s))
}

/// Among the positions of `s` whose element satisfies `pred` and lie at or
/// below `k`, a least one exists.
pub proof fn lemma_least_index<A>(s: Seq<A>, pred: spec_fn(A) -> bool, k: int)
    requires
        0 <= k < s.len(),
        pred(s[k]),
    ensures
        exists|m: int|
            0 <= m <= k && pred(s[m]) && (forall|j: int| 0 <= j < m ==> !pred(s[j])),
    decreases k,
{
    if forall|j: int| 0 <= j < k ==> !pred(s[j]) {
        assert(0 <= k <= k && pred(s[k]) && (forall|j: int| 0 <= j < k ==> !pred(s[j])));
    } else {
        let j = choose|j: int| 0 <= j < k && pred(s[j]);
        lemma_least_index(s, pred, j);
    }
}

/// When `s` holds a `/`, its first `/` is well defined.
pub proof fn lemma_first_slash(s: Seq<char>)
    requires
        s.contains('/'),
    ensures
        is_first_slash(s, first_slash_index(s)),
{
    let k = choose|k: int| 0 <= k < s.len() && s[k] == '/';
    lemma_least_index(s, |c: char| c == '/', k);
    let m = choose|m: int|
        0 <= m <= k && (|c: char| c == '/')(s[m]) && (forall|j: int|
            0 <= j < m ==> !(|c: char| c == '/')(s[j]));
    assert(is_first_slash(s, m));
}

/// Filtering keeps a sequence whose elements all pass the predicate.
pub proof fn lemma_filter_all_kept<A>(s: Seq<A>, pred: spec_fn(A) -> bool)
    requires
        forall|k: int| 0 <= k < s.len() ==> pred(s[k]),
    ensures
        s.filter(pred) == s,
    decreases s.len(),
{
    reveal(Seq::filter);
    if s.len() == 0 {
        assert(s.filter(pred) =~= s);
    } else {
        lemma_filter_all_kept(s.drop_last(), pred);
        assert(s.drop_last().push(s.last()) =~= s);
    }
}

/// One step of filtering a growing prefix: the filtered prefix of length
/// `i + 1` extends the filtered prefix of length `i` by `s[i]` exactly when
/// `s[i]` passes the predicate.
pub proof fn lemma_filter_take_step<A>(s: Seq<A>, pred: spec_fn(A) -> bool, i: int)
    requires
        0 <= i < s.len(),
    ensures
        s.take(i + 1).filter(pred) == if pred(s[i]) {
            s.take(i).filter(pred).push(s[i])
        } else {
            s.take(i).filter(pred)
        },
{
    reveal(Seq::filter);
    assert(s.take(i + 1).drop_last() =~= s.take(i));
    assert(s.take(i + 1).last() == s[i]);
}

/// The characters of `s`, in order.
pub fn chars_vec(s: &str) -> (r: Vec<char>)
    ensures
        r@ == s@,
{
    let n = s.unicode_len();
    let mut v: Vec<char> = Vec::new();
    let mut i: usize = 0;
    while i < n
        invariant
            n == s@.len(),
            i <= n,
            v@ == s@.take(i as int),
        decreases n - i,
    {
        v.push(s.get_char(i));
        assert(v@ =~= s@.take(i + 1));
        i = i + 1;
    }
    assert(s@.take(n as int) =~= s@);
    v
}

/// Relies on `String`'s `FromIterator` implementation: collecting characters
/// yields the string made of exactly those characters in order.
#[verifier::external_body]
pub fn string_from_chars(chars: &Vec<char>) -> (r: String)
    ensures
        r@ == chars@,
{
    chars.iter().collect()
}

/// `chars` with every separator removed.
pub fn filter_separators(chars: &Vec<char>) -> (r: Vec<char>)
    ensures
        r@ == strip_separators_spec(chars@),
{
    let mut out: Vec<char> = Vec::new();
    let mut i: usize = 0;
    while i < chars.len()
        invariant
            i <= chars@.len(),
            out@ == chars@.take(i as int).filter(kept_pred()),
        decreases chars@.len() - i,
    {
        let c = chars[i];
        proof {
            lemma_filter_take_step(chars@, kept_pred(), i as int);
        }
        if !(c == '\u{200b}' || c == ' ' || c == '\u{b7}') {
            out.push(c);
        }
        i = i + 1;
    }
    assert(chars@.take(chars@.len() as int) =~= chars@);
    out
}

/// `chars` with every zero-width space removed.
pub fn filter_zwsp(chars: &Vec<char>) -> (r: Vec<char>)
    ensures
        r@ == strip_zwsp_spec(chars@),
{
    let mut out: Vec<char> = Vec::new();
    let mut i: usize = 0;
    while i < chars.len()
        invariant
            i <= chars@.len(),
            out@ == chars@.take(i as int).filter(zwsp_kept_pred()),
        decreases chars@.len() - i,
    {
        let c = chars[i];
        proof {
            lemma_filter_take_step(chars@, zwsp_kept_pred(), i as int);
        }
        if c != '\u{200b}' {
            out.push(c);
        }
        i = i + 1;
    }
    assert(chars@.take(chars@.len() as int) =~= chars@);
    out
}

/// The position of the first `/` in `chars`, if any.
fn find_first_slash(chars: &Vec<char>) -> (r: Option<usize>)
    ensures
        match r {
            Some(i) => is_first_slash(chars@, i as int),
            None => !chars@.contains('/'),
        },
{
    let mut i: usize = 0;
    while i < chars.len()
        invariant
            i <= chars@.len(),
            forall|j: int| 0 <= j < i ==> chars@[j] != '/',
        decreases chars@.len() - i,
    {
        if chars[i] == '/' {
            return Some(i);
        }
        i = i + 1;
    }
    proof {
        if chars@.contains('/') {
            let w = choose|k: int| 0 <= k < chars@.len() && chars@[k] == '/';
            assert(chars@[w] != '/');
        }
    }
    None
}

/// Normalizes `text` for matching: removes every zero-width space, ordinary
/// space and middle dot, then keeps only what stands before the first `/`.
pub fn normalize_for_match(text: &str) -> (r: String)
    ensures
        r@ == normalize_spec(text@),
{
    let chars = chars_vec(text);
    let mut kept = filter_separators(&chars);
    match find_first_slash(&kept) {
        Some(cut) => {
            proof {
                assert(kept@.contains('/')) by {
                    assert(kept@[cut as int] == '/');
                }
                lemma_first_slash(kept@);
                assert(first_slash_index(kept@) == cut as int);
            }
            kept.truncate(cut);
            string_from_chars(&kept)
        },
        None => string_from_chars(&kept),
    }
}

/// All characters of `s` are whitespace.
pub open spec fn all_ws(s: Seq<char>) -> bool {
    forall|k: int| 0 <= k < s.len() ==> is_ws_char(s[k])
}

/// `i` is the position of the first non-whitespace character of `s`.
pub open spec fn is_first_non_ws(s: Seq<char>, i: int) -> bool {
    &&& 0 <= i < s.len()
    &&& !is_ws_char(s[i])
    &&& forall|j: int| 0 <= j < i ==> is_ws_char(s[j])
}

/// `i` is the position of the last non-whitespace character of `s`.
pub open spec fn is_last_non_ws(s: Seq<char>, i: int) -> bool {
    &&& 0 <= i < s.len()
    &&& !is_ws_char(s[i])
    &&& forall|j: int| i < j < s.len() ==> is_ws_char(s[j])
}

/// `s` without its leading and trailing whitespace, the empty sequence when
/// everything is whitespace.
pub open spec fn trim_spec(s: Seq<char>) -> Seq<char> {
    if all_ws(s) {
        Seq::empty()
    } else {
        let a = choose|i: int| is_first_non_ws(s, i);
        let b = choose|i: int| is_last_non_ws(s, i);
        s.subrange(a, b + 1)
    }
}

/// Trims leading and trailing whitespace from `text`.
pub fn trim(text: &str) -> (r: String)
    ensures
        r@ == trim_spec(text@),
{
    let chars = chars_vec(text);
    let n = chars.len();
    let mut a: usize = 0;
    while a < n && is_ws(chars[a])
        invariant
            n == chars@.len(),
            a <= n,
            forall|j: int| 0 <= j < a ==> is_ws_char(chars@[j]),
        decreases n - a,
    {
        a = a + 1;
    }
    if a == n {
        let empty: Vec<char> = Vec::new();
        return string_from_chars(&empty);
    }
    let mut b: usize = n - 1;
    while b > a && is_ws(chars[b])
        invariant
            n == chars@.len(),
            a <= b < n,
            !is_ws_char(chars@[a as int]),
            forall|j: int| b < j < n ==> is_ws_char(chars@[j]),
        decreases b,
    {
        b = b - 1;
    }
    proof {
        assert(is_first_non_ws(chars@, a as int));
        assert(is_last_non_ws(chars@, b as int));
        assert(!all_ws(chars@));
        let ca = choose|i: int| is_first_non_ws(chars@, i);
        let cb = choose|i: int| is_last_non_ws(chars@, i);
        assert(ca == a as int);
        assert(cb == b as int);
    }
    let mut out: Vec<char> = Vec::new();
    let mut i: usize = a;
    while i <= b
        invariant
            n == chars@.len(),
            a <= i <= b + 1,
            b < n,
            out@ == chars@.subrange(a as int, i as int),
        decreases b + 1 - i,
    {
        out.push(chars[i]);
        assert(out@ =~= chars@.subrange(a as int, i + 1));
        i = i + 1;
    }
    string_from_chars(&out)
}

/// `needle` occurs contiguously somewhere in `hay`.
pub open spec fn contains_seq(hay: Seq<char>, needle: Seq<char>) -> bool {
    exists|i: int|
        0 <= i && i + needle.len() <= hay.len() && #[trigger] hay.subrange(
            i,
            i + needle.len() as int,
        ) == needle
}

/// `needle` occurs in `hay` starting exactly at `i`.
fn matches_at(hay: &Vec<char>, needle: &Vec<char>, i: usize) -> (r: bool)
    requires
        i + needle@.len() <= hay@.len(),
    ensures
        r == (hay@.subrange(i as int, i as int + needle@.len() as int) == needle@),
{
    let hn = hay.len();
    let nn = needle.len();
    let mut j: usize = 0;
    while j < nn
        invariant
            hn == hay@.len(),
            nn == needle@.len(),
            i + nn <= hn,
            j <= nn,
            forall|k: int| 0 <= k < j ==> hay@[i as int + k] == needle@[k],
        decreases nn - j,
    {
        if hay[i + j] != needle[j] {
            proof {
                let sub = hay@.subrange(i as int, i as int + needle@.len() as int);
                assert(sub[j as int] == hay@[i as int + j as int]);
            }
            return false;
        }
        j = j + 1;
    }
    proof {
        assert(hay@.subrange(i as int, i as int + needle@.len() as int) =~= needle@);
    }
    true
}

/// Decides whether `needle` occurs contiguously in `hay`.
pub fn contains_chars(hay: &Vec<char>, needle: &Vec<char>) -> (r: bool)
    ensures
        r == contains_seq(hay@, needle@),
{
    if needle.len() > hay.len() {
        return false;
    }
    if needle.len() == 0 {
        proof {
            assert(hay@.subrange(0, 0 + needle@.len() as int) =~= needle@);
        }
        return true;
    }
    let hn = hay.len();
    let bound = hn - needle.len();
    let mut i: usize = 0;
    while i <= bound
        invariant
            hn == hay@.len(),
            1 <= needle@.len() <= hay@.len(),
            bound == hay@.len() - needle@.len(),
            i <= bound + 1,
            forall|m: int|
                0 <= m < i ==> #[trigger] hay@.subrange(m, m + needle@.len() as int) != needle@,
        decreases bound + 1 - i,
    {
        if matches_at(hay, needle, i) {
            return true;
        }
        i = i + 1;
    }
    proof {
        if contains_seq(hay@, needle@) {
            let w = choose|m: int|
                0 <= m && m + needle@.len() <= hay@.len() && #[trigger] hay@.subrange(
                    m,
                    m + needle@.len() as int,
                ) == needle@;
            assert(hay@.subrange(w, w + needle@.len() as int) != needle@);
        }
    }
    false
}

/// Normalization is idempotent: a second pass changes nothing.
pub proof fn lemma_normalize_idempotent(s: Seq<char>)
    ensures
        normalize_spec(normalize_spec(s)) == normalize_spec(s),
{
    broadcast use group_filter_ensures;

    let t = strip_separators_spec(s);
    let u = normalize_spec(s);
    if t.contains('/') {
        lemma_first_slash(t);
        let i = first_slash_index(t);
        assert(u == t.take(i));
        assert(forall|k: int| 0 <= k < u.len() ==> kept_pred()(u[k])) by {
            assert(forall|k: int| 0 <= k < t.len() ==> kept_pred()(#[trigger] t[k]));
        }
        lemma_filter_all_kept(u, kept_pred());
        assert(forall|k: int| 0 <= k < u.len() ==> u[k] != '/');
        assert(!u.contains('/')) by {
            if u.contains('/') {
                let w = choose|k: int| 0 <= k < u.len() && u[k] == '/';
                assert(u[w] != '/');
            }
        }
        assert(normalize_spec(u) == u);
    } else {
        assert(u == t);
        assert(forall|k: int| 0 <= k < t.len() ==> kept_pred()(#[trigger] t[k]));
        lemma_filter_all_kept(t, kept_pred());
        assert(normalize_spec(u) == u);
    }
}

/// For a text holding a `/`, normalization keeps exactly the separator
/// stripped prefix before the first `/`: the result is a strict prefix of the
/// stripped text, the character right after it is a `/`, and no `/` stands
/// inside it.
pub proof fn lemma_normalize_truncates(s: Seq<char>)
    requires
        s.contains('/'),
    ensures
        normalize_spec(s).len() < strip_separators_spec(s).len(),
        normalize_spec(s) == strip_separators_spec(s).take(normalize_spec(s).len() as int),
        strip_separators_spec(s)[normalize_spec(s).len() as int] == '/',
        forall|k: int| 0 <= k < normalize_spec(s).len() ==> normalize_spec(s)[k] != '/',
{
    broadcast use group_filter_ensures;

    let t = strip_separators_spec(s);
    let w = choose|k: int| 0 <= k < s.len() && s[k] == '/';
    assert(kept_pred()(s[w]));
    assert(t.contains(s[w]));
    lemma_first_slash(t);
    let i = first_slash_index(t);
    assert(normalize_spec(s) == t.take(i));
}

} // verus!
