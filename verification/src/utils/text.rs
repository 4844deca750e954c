//! Text matching: regular expressions and plain substring search.

use regex::Regex;
use vstd::prelude::*;
use vstd::string::*;

verus! {

/// Equality of two string slices is equality of their characters.
pub assume_specification[ <str as PartialEq>::eq ](a: &str, b: &str) -> (r: bool)
    ensures
        r == (a@ == b@),
;

/// What searching `text` for the regular expression `pattern` gives: `None`
/// when the pattern does not compile, otherwise whether it matches somewhere
/// in the text.
pub uninterp spec fn regex_search(pattern: Seq<char>, text: Seq<char>) -> Option<bool>;

/// Compiles `pattern` with `regex::Regex::new` and asks `Regex::is_match`
/// whether it matches anywhere in `text`. The contract only gives the outcome
/// its name; nothing is claimed about which patterns compile or match.
#[verifier::external_body]
fn search(pattern: &str, text: &str) -> (r: Option<bool>)
    ensures
        r == regex_search(pattern@, text@),
{
    match Regex::new(pattern) {
        Ok(re) => Some(re.is_match(text)),
        Err(_) => None,
    }
}

/// `pattern` between the anchors of the start and of the end of the text.
/// Where `pattern` compiles and this does too, it matches exactly the texts
/// that `pattern` matches as a whole.
pub open spec fn anchored(pattern: Seq<char>) -> Seq<char> {
    "\\A(?:"@ + pattern + ")\\z"@
}

/// What matching the whole of `text` against `pattern` gives: `None` when the
/// pattern does not compile, alone or between the anchors, otherwise whether
/// it matches the whole text.
pub open spec fn regex_whole(pattern: Seq<char>, text: Seq<char>) -> Option<bool> {
    if regex_search(pattern, text) is None {
        None
    } else {
        regex_search(anchored(pattern), text)
    }
}

/// Whether `rx` is found anywhere in `s`; a pattern that does not compile is
/// found nowhere.
pub open spec fn regex_find_spec(rx: Seq<char>, s: Seq<char>) -> bool {
    regex_search(rx, s) == Some(true)
}

/// Whether `rx` matches the whole of `s`; a pattern that does not compile
/// matches nothing.
pub open spec fn regex_match_spec(rx: Seq<char>, s: Seq<char>) -> bool {
    regex_whole(rx, s) == Some(true)
}

pub fn same_text(a: &str, b: &str) -> (r: bool)
    ensures
        r == (a@ == b@),
{
    a.eq(b)
}

/// Whether `rx` matches the whole of `s`, or `None` where `rx` does not
/// compile. The pattern is tried alone first: one that does not compile alone
/// is refused even where it would compile between the anchors.
pub fn try_regex_match(rx: &str, s: &str) -> (r: Option<bool>)
    ensures
        r == regex_whole(rx@, s@),
{
    match search(rx, s) {
        Some(_) => {
            let whole = String::from_str("\\A(?:").concat(rx).concat(")\\z");
            search(whole.as_str(), s)
        },
        None => None,
    }
}

/// Whether `rx` is found anywhere in `s`, or `None` where `rx` does not
/// compile.
pub fn try_regex_find(rx: &str, s: &str) -> (r: Option<bool>)
    ensures
        r == regex_search(rx@, s@),
{
    search(rx, s)
}

/// Full-string regular expression match.
pub fn regex_match(rx: &str, s: &str) -> (r: bool)
    ensures
        r == regex_match_spec(rx@, s@),
{
    match try_regex_match(rx, s) {
        Some(found) => found,
        None => false,
    }
}

/// Regular expression search anywhere in `s`.
pub fn regex_find(rx: &str, s: &str) -> (r: bool)
    ensures
        r == regex_find_spec(rx@, s@),
{
    match try_regex_find(rx, s) {
        Some(found) => found,
        None => false,
    }
}

/// `needle` stands in `hay` at offset `k`.
pub open spec fn occurs_at(hay: Seq<u8>, needle: Seq<u8>, k: int) -> bool {
    0 <= k && k + needle.len() <= hay.len() && hay.subrange(k, k + needle.len()) == needle
}

/// `needle` stands somewhere in `hay`.
pub open spec fn occurs_in(hay: Seq<u8>, needle: Seq<u8>) -> bool {
    exists|k: int| occurs_at(hay, needle, k)
}

fn matches_at(hay: &[u8], needle: &[u8], k: usize) -> (r: bool)
    requires
        k + needle@.len() <= hay@.len(),
    ensures
        r == occurs_at(hay@, needle@, k as int),
{
    let total: usize = hay.len();
    let mut j: usize = 0;
    while j < needle.len()
        invariant
            j <= needle@.len(),
            k + needle@.len() <= hay@.len() == total,
            forall|t: int| 0 <= t < j ==> hay@[k + t] == needle@[t],
        decreases needle@.len() - j,
    {
        if hay[k + j] != needle[j] {
            proof {
                assert(hay@.subrange(k as int, k + needle@.len())[j as int] == hay@[k + j]);
            }
            return false;
        }
        j += 1;
    }
    proof {
        assert(hay@.subrange(k as int, k + needle@.len()) =~= needle@);
    }
    true
}

/// Whether the text `needle` stands somewhere in the text `hay`, both taken as
/// the bytes of their UTF-8 form.
pub open spec fn text_contains(hay: Seq<char>, needle: Seq<char>) -> bool {
    occurs_in(vstd::utf8::encode_utf8(hay), vstd::utf8::encode_utf8(needle))
}

/// Whether the text `needle` stands somewhere in the text `hay`.
pub fn contains_text(hay: &str, needle: &str) -> (r: bool)
    ensures
        r == text_contains(hay@, needle@),
{
    let h = hay.as_bytes();
    let n = needle.as_bytes();
    if n.len() > h.len() {
        return false;
    }
    let last: usize = h.len() - n.len();
    let mut k: usize = 0;
    loop
        invariant
            k <= last,
            last == h@.len() - n@.len(),
            h@ == hay.spec_bytes(),
            n@ == needle.spec_bytes(),
            forall|t: int| 0 <= t < k ==> !occurs_at(h@, n@, t),
        decreases last - k,
    {
        if matches_at(h, n, k) {
            return true;
        }
        if k == last {
            return false;
        }
        k += 1;
    }
}

} // verus!
