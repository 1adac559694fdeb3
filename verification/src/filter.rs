//! The filter stage: extension allow/deny lists applied to a URL's path
//! before fetching, and status-code allow/deny lists applied to the
//! numeric status of a completed fetch.  In each dimension a non-empty
//! allow list is used exclusively and the deny list is ignored.

use crate::text::{chars_end_with, ends_with, string_to_chars};
use vstd::prelude::*;

verus! {

/// The path component of `s` read as an absolute URL, where it parses.
pub uninterp spec fn url_path(s: Seq<char>) -> Option<Seq<char>>;

/// Relies on `url::Url::parse` and `url::Url::path`: both depend on the
/// URL string alone; `parse` fails exactly where the string is not an
/// absolute URL, and `path` returns its path component.
#[verifier::external_body]
fn try_url_path(u: &str) -> (r: Option<String>)
    ensures
        r is Some <==> url_path(u@) is Some,
        r matches Some(p) ==> url_path(u@) == Some(p@),
{
    match url::Url::parse(u) {
        Ok(parsed) => Some(parsed.path().to_string()),
        Err(_) => None,
    }
}

/// The path of `s`, or empty where `s` does not parse as a URL.  The
/// empty path is a documented quirk: such a URL can never match an allow
/// suffix, but is never matched by a deny suffix either.
pub open spec fn path_of(s: Seq<char>) -> Seq<char> {
    match url_path(s) {
        Some(p) => p,
        None => Seq::empty(),
    }
}

/// The URL's path, empty when it does not parse.
pub fn get_path(u: &str) -> (r: String)
    ensures
        r@ == path_of(u@),
{
    match try_url_path(u) {
        Some(p) => p,
        None => String::new(),
    }
}

/// Whether any of `suffixes` ends `path`.
pub open spec fn some_suffix(path: Seq<char>, suffixes: Seq<Seq<char>>) -> bool {
    exists|k: int| 0 <= k < suffixes.len() && ends_with(path, suffixes[k])
}

fn any_suffix(path: &Vec<char>, suffixes: &Vec<String>) -> (r: bool)
    ensures
        r == some_suffix(path@, suffixes.deep_view()),
{
    let n = suffixes.len();
    let mut k: usize = 0;
    while k < n
        invariant
            n == suffixes.deep_view().len(),
            k <= n,
            forall|j: int| 0 <= j < k ==> !ends_with(path@, suffixes.deep_view()[j]),
        decreases n - k,
    {
        let suf = string_to_chars(suffixes[k].as_str());
        proof {
            assert(suf@ == suffixes.deep_view()[k as int]);
        }
        if chars_end_with(path, &suf) {
            return true;
        }
        k = k + 1;
    }
    false
}

/// Whether the URL survives the extension lists: a non-empty allow list
/// keeps exactly the URLs whose path ends with one of its suffixes;
/// otherwise a URL whose path ends with a deny suffix is dropped.
pub open spec fn ext_keep(url: Seq<char>, allow: Seq<Seq<char>>, deny: Seq<Seq<char>>) -> bool {
    if allow.len() > 0 {
        some_suffix(path_of(url), allow)
    } else {
        !some_suffix(path_of(url), deny)
    }
}

/// Whether one URL survives the extension lists.
pub fn ext_kept(url: &str, allow: &Vec<String>, deny: &Vec<String>) -> (r: bool)
    ensures
        r == ext_keep(url@, allow.deep_view(), deny.deep_view()),
{
    let path_string = get_path(url);
    let path = string_to_chars(path_string.as_str());
    if allow.len() > 0 {
        any_suffix(&path, allow)
    } else {
        !any_suffix(&path, deny)
    }
}

/// The URLs surviving the extension lists, in order.
pub open spec fn ext_filter(
    urls: Seq<Seq<char>>,
    allow: Seq<Seq<char>>,
    deny: Seq<Seq<char>>,
) -> Seq<Seq<char>> {
    urls.filter(|u: Seq<char>| ext_keep(u, allow, deny))
}

/// The extension filter over a whole listing, keeping order.
pub fn filter_by_extension(urls: Vec<String>, allow: &Vec<String>, deny: &Vec<String>) -> (r: Vec<
    String,
>)
    ensures
        r.deep_view() == ext_filter(urls.deep_view(), allow.deep_view(), deny.deep_view()),
{
    let ghost l = urls.deep_view();
    let ghost pred = |u: Seq<char>| ext_keep(u, allow.deep_view(), deny.deep_view());
    let n = urls.len();
    let mut out: Vec<String> = Vec::new();
    let mut i: usize = 0;
    proof {
        assert(l.take(0) =~= Seq::<Seq<char>>::empty());
        assert(out.deep_view() =~= l.take(0).filter(pred));
    }
    while i < n
        invariant
            n == l.len(),
            l == urls.deep_view(),
            pred == (|u: Seq<char>| ext_keep(u, allow.deep_view(), deny.deep_view())),
            i <= n,
            out.deep_view() == l.take(i as int).filter(pred),
        decreases n - i,
    {
        let ghost prev_out = out.deep_view();
        let url = urls[i].clone();
        proof {
            assert(url@ == l[i as int]);
            assert(l.take(i + 1).drop_last() =~= l.take(i as int));
            assert(l.take(i + 1).last() == l[i as int]);
            reveal_with_fuel(Seq::filter, 2);
        }
        if ext_kept(url.as_str(), allow, deny) {
            out.push(url);
            proof {
                assert(out.deep_view() =~= prev_out.push(l[i as int]));
                assert(out.deep_view() =~= l.take(i + 1).filter(pred));
            }
        } else {
            proof {
                assert(out.deep_view() =~= l.take(i + 1).filter(pred));
            }
        }
        i = i + 1;
    }
    proof {
        assert(l.take(n as int) =~= l);
    }
    out
}

/// The whole pre-fetch stage of one target: the index response split
/// into lines, each line one archived URL, filtered by the extension
/// lists.
pub fn select_urls(response_text: &str, allow: &Vec<String>, deny: &Vec<String>) -> (r: Vec<
    String,
>)
    ensures
        r.deep_view() == ext_filter(
            crate::text::lines_of(response_text@),
            allow.deep_view(),
            deny.deep_view(),
        ),
{
    let lines = crate::text::split_lines(response_text);
    filter_by_extension(lines, allow, deny)
}

/// Whether the numeric status survives the status lists: a non-empty
/// allow list keeps exactly its members; otherwise a listed deny status
/// is dropped.
pub open spec fn status_keep(status: u16, allow: Seq<u16>, deny: Seq<u16>) -> bool {
    if allow.len() > 0 {
        allow.contains(status)
    } else {
        !deny.contains(status)
    }
}

fn contains_u16(v: &Vec<u16>, x: u16) -> (r: bool)
    ensures
        r == v@.contains(x),
{
    let n = v.len();
    let mut i: usize = 0;
    while i < n
        invariant
            n == v@.len(),
            i <= n,
            forall|j: int| 0 <= j < i ==> v@[j] != x,
        decreases n - i,
    {
        if v[i] == x {
            return true;
        }
        i = i + 1;
    }
    false
}

/// Whether one completed fetch's status survives the status lists.
pub fn status_kept(status: u16, allow: &Vec<u16>, deny: &Vec<u16>) -> (r: bool)
    ensures
        r == status_keep(status, allow@, deny@),
{
    if allow.len() > 0 {
        contains_u16(allow, status)
    } else {
        !contains_u16(deny, status)
    }
}

/// Law: with a non-empty extension allow list, the deny list has no
/// influence at all — allow wins over deny.
pub proof fn lemma_ext_allow_wins(
    url: Seq<char>,
    allow: Seq<Seq<char>>,
    deny1: Seq<Seq<char>>,
    deny2: Seq<Seq<char>>,
)
    requires
        allow.len() > 0,
    ensures
        ext_keep(url, allow, deny1) == ext_keep(url, allow, deny2),
{
}

/// Law: with a non-empty status allow list, the deny list has no
/// influence at all — the same allow-wins-over-deny precedence as for
/// extensions.
pub proof fn lemma_status_allow_wins(status: u16, allow: Seq<u16>, deny1: Seq<u16>, deny2: Seq<
    u16,
>)
    requires
        allow.len() > 0,
    ensures
        status_keep(status, allow, deny1) == status_keep(status, allow, deny2),
{
}

} // verus!
