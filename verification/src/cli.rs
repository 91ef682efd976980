//! The run's configuration and the query driver's pure decisions: which
//! input lines are looked up, the lookup URL built for each, and the forcing
//! of the output path's extension.
//!
//! Reading the input, fetching each URL and parsing the command line stay
//! with the surrounding program; it hands plain values in and takes plain
//! values back.

use vstd::prelude::*;
use vstd::string::StringExecFns;
use crate::text::chars_vec;
use crate::text::lemma_filter_take_step;
use crate::text::trim;
use crate::text::trim_spec;

verus! {

/// How the remote page romanizes readings; decides what stands on the front
/// of the cards when the reading is used.
#[derive(Debug, Clone, Copy, PartialEq, Eq, Structural)]
pub enum RomanizationMethod {
    Kana,
    HepburnBasic,
    HepburnTraditional,
    HepburnModified,
    Kunreisiki,
}

/// The run's configuration, consumed read-only: how readings are romanized,
/// whether katakana is converted, the deck's name and description, the
/// output path, the optional input path, and whether the writing rather than
/// the reading makes the front of each card.
#[derive(Debug, Clone)]
pub struct Options {
    pub romanization_method: RomanizationMethod,
    pub convert_katakana_to_hiragana: bool,
    pub deck_name: String,
    pub deck_description: String,
    pub output: String,
    pub input: Option<String>,
    pub writing: bool,
}

/// The query-string code of each romanization method.
pub open spec fn romanization_code_spec(m: RomanizationMethod) -> Seq<char> {
    match m {
        RomanizationMethod::Kana => "kana"@,
        RomanizationMethod::HepburnBasic => "hb"@,
        RomanizationMethod::HepburnTraditional => "ht"@,
        RomanizationMethod::HepburnModified => "hm"@,
        RomanizationMethod::Kunreisiki => "ks"@,
    }
}

/// The query-string code of `m`.
pub fn romanization_code(m: &RomanizationMethod) -> (r: &'static str)
    ensures
        r@ == romanization_code_spec(*m),
{
    match m {
        RomanizationMethod::Kana => "kana",
        RomanizationMethod::HepburnBasic => "hb",
        RomanizationMethod::HepburnTraditional => "ht",
        RomanizationMethod::HepburnModified => "hm",
        RomanizationMethod::Kunreisiki => "ks",
    }
}

/// A character that percent-encoding passes through unchanged.
pub open spec fn is_url_safe_char(c: char) -> bool {
    ||| ('0' <= c && c <= '9')
    ||| ('a' <= c && c <= 'z')
    ||| ('A' <= c && c <= 'Z')
    ||| c == '-'
    ||| c == '.'
    ||| c == '_'
    ||| c == '~'
}

/// What percent-encoding a string yields.
pub uninterp spec fn url_encoded(s: Seq<char>) -> Seq<char>;

/// Relies on `urlencoding::encode`: it percent-encodes every byte except
/// ASCII alphanumerics and `-`, `_`, `.`, `~`, the result depends on the
/// input alone, and a string made only of those safe characters comes back
/// unchanged.
#[verifier::external_body]
fn url_encode(s: &str) -> (r: String)
    ensures
        r@ == url_encoded(s@),
        (forall|k: int| 0 <= k < s@.len() ==> #[trigger] is_url_safe_char(s@[k])) ==> r@ == s@,
{
    urlencoding::encode(s).into_owned()
}

/// The lookup URL for one phrase: the fixed remote endpoint, the
/// percent-encoded phrase, the romanization code, and the katakana flag when
/// conversion is requested.
pub open spec fn lookup_url_spec(phrase: Seq<char>, m: RomanizationMethod, hira: bool) -> Seq<
    char,
> {
    "https://ichi.moe/cl/qr/?q="@ + url_encoded(phrase) + "&r="@ + romanization_code_spec(m) + if hira {
        "&hira=on"@
    } else {
        Seq::empty()
    }
}

/// Builds the lookup URL for one phrase.
pub fn build_lookup_url(phrase: &str, method: &RomanizationMethod, convert_katakana: bool) -> (r:
    String)
    ensures
        r@ == lookup_url_spec(phrase@, *method, convert_katakana),
{
    let mut url = "https://ichi.moe/cl/qr/?q=".to_owned();
    let encoded = url_encode(phrase);
    url.append(encoded.as_str());
    url.append("&r=");
    url.append(romanization_code(method));
    if convert_katakana {
        url.append("&hira=on");
    }
    proof {
        assert(url@ =~= lookup_url_spec(phrase@, *method, convert_katakana));
    }
    url
}

/// A line that is skipped: blank after trimming.
pub open spec fn is_blank_spec(line: Seq<char>) -> bool {
    trim_spec(line).len() == 0
}

/// Decides whether an input line is blank and therefore skipped.
pub fn is_blank_line(line: &str) -> (r: bool)
    ensures
        r == is_blank_spec(line@),
{
    let trimmed = trim(line);
    trimmed.as_str().unicode_len() == 0
}

/// The lines that are looked up.
pub open spec fn non_blank_pred() -> spec_fn(Seq<char>) -> bool {
    |l: Seq<char>| !is_blank_spec(l)
}

/// The lookup URLs of a whole input: one per non-blank line, in input order.
pub open spec fn plan_spec(lines: Seq<Seq<char>>, m: RomanizationMethod, hira: bool) -> Seq<
    Seq<char>,
> {
    lines.filter(non_blank_pred()).map_values(|l: Seq<char>| lookup_url_spec(l, m, hira))
}

/// Turns the input lines into the lookup URLs the run will fetch, skipping
/// blank lines and keeping input order.
pub fn plan_lookups(lines: &Vec<String>, method: &RomanizationMethod, convert_katakana: bool) -> (r:
    Vec<String>)
    ensures
        r.deep_view() == plan_spec(lines.deep_view(), *method, convert_katakana),
{
    let ghost lines_v = lines.deep_view();
    let ghost f = |l: Seq<char>| lookup_url_spec(l, *method, convert_katakana);
    let mut urls: Vec<String> = Vec::new();
    let mut i: usize = 0;
    while i < lines.len()
        invariant
            lines_v == lines.deep_view(),
            i <= lines_v.len(),
            urls.deep_view() == lines_v.take(i as int).filter(non_blank_pred()).map_values(f),
            f == (|l: Seq<char>| lookup_url_spec(l, *method, convert_katakana)),
        decreases lines_v.len() - i,
    {
        proof {
            lemma_filter_take_step(lines_v, non_blank_pred(), i as int);
        }
        if !is_blank_line(lines[i].as_str()) {
            let ghost prev = urls.deep_view();
            let url = build_lookup_url(lines[i].as_str(), method, convert_katakana);
            urls.push(url);
            proof {
                assert(non_blank_pred()(lines_v[i as int]));
                let prevf = lines_v.take(i as int).filter(non_blank_pred());
                assert(lines_v.take(i + 1).filter(non_blank_pred()) == prevf.push(
                    lines_v[i as int],
                ));
                assert(urls.deep_view() =~= prev.push(url@));
                assert(prev.push(url@) =~= prevf.push(lines_v[i as int]).map_values(f));
            }
        } else {
            proof {
                assert(!non_blank_pred()(lines_v[i as int]));
            }
        }
        i = i + 1;
    }
    proof {
        assert(lines_v.take(lines_v.len() as int) =~= lines_v);
    }
    urls
}

/// The final path component of `p` already carries the `.apkg` extension:
/// it ends in `.apkg` and the dot is not the component's first character.
pub open spec fn has_apkg_ext(p: Seq<char>) -> bool {
    &&& p.len() >= 5
    &&& p.subrange(p.len() - 5, p.len() as int) == ".apkg"@
    &&& !(p.len() == 5 || p[p.len() - 6] == '/')
}

/// The output path with its extension forced to `.apkg`: kept when the final
/// component already has that extension, with `.apkg` appended otherwise.
pub open spec fn force_apkg_spec(p: Seq<char>) -> Seq<char> {
    if has_apkg_ext(p) {
        p
    } else {
        p + ".apkg"@
    }
}

/// Forces the output path's extension to `.apkg`.
pub fn force_apkg_extension(path: &str) -> (r: String)
    ensures
        r@ == force_apkg_spec(path@),
{
    proof {
        reveal_strlit(".apkg");
    }
    let chars = chars_vec(path);
    let n = chars.len();
    let has = if n >= 6 {
        chars[n - 6] != '/' && chars[n - 5] == '.' && chars[n - 4] == 'a' && chars[n - 3] == 'p'
            && chars[n - 2] == 'k' && chars[n - 1] == 'g'
    } else {
        false
    };
    if has {
        proof {
            assert(path@.subrange(path@.len() - 5, path@.len() as int) =~= ".apkg"@);
        }
        path.to_owned()
    } else {
        proof {
            if has_apkg_ext(path@) {
                assert(path@.len() >= 6);
                let sub = path@.subrange(path@.len() - 5, path@.len() as int);
                assert(sub[0] == '.' && sub[1] == 'a' && sub[2] == 'p' && sub[3] == 'k' && sub[4]
                    == 'g');
            }
        }
        let mut r = path.to_owned();
        r.append(".apkg");
        r
    }
}

} // verus!
