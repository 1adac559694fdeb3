//! Building the archive's capture-index query URLs and the replay URL of
//! one snapshot.  Each builder's result is pinned character by character.

use vstd::prelude::*;

verus! {

/// The match pattern sent to the capture index: `*.<domain>%2F*` when
/// subdomains are wanted, else `<domain>%2F*` (`%2F` encodes the slash).
pub open spec fn listing_pattern(domain: Seq<char>, subs: bool) -> Seq<char> {
    if subs {
        "*."@ + domain + "%2F*"@
    } else {
        domain + "%2F*"@
    }
}

/// The capture-index query listing every archived URL of a domain once:
/// text output, original-URL field only, collapsed by URL key.
pub open spec fn listing_query_of(domain: Seq<char>, subs: bool) -> Seq<char> {
    "http://web.archive.org/cdx/search/cdx?url="@ + listing_pattern(domain, subs)
        + "&output=text&fl=original&collapse=urlkey"@
}

/// The URL-listing query for `domain`.
pub fn listing_query_url(domain: &str, subs: bool) -> (r: String)
    ensures
        r@ == listing_query_of(domain@, subs),
{
    let mut r = String::from_str("http://web.archive.org/cdx/search/cdx?url=");
    if subs {
        r.append("*.");
    }
    r.append(domain);
    r.append("%2F*");
    r.append("&output=text&fl=original&collapse=urlkey");
    proof {
        assert(r@ =~= listing_query_of(domain@, subs));
    }
    r
}

/// The capture-index query listing the snapshots of one URL: timestamp
/// and original-URL fields, successful captures only, collapsed by
/// content digest.
pub open spec fn snapshot_query_of(url: Seq<char>) -> Seq<char> {
    "https://web.archive.org/cdx/search/cdx?url="@ + url
        + "&output=text&fl=timestamp,original&filter=statuscode:200&collapse=digest"@
}

/// The snapshot-listing query for `url`.
pub fn snapshot_query_url(url: &str) -> (r: String)
    ensures
        r@ == snapshot_query_of(url@),
{
    let mut r = String::from_str("https://web.archive.org/cdx/search/cdx?url=");
    r.append(url);
    r.append("&output=text&fl=timestamp,original&filter=statuscode:200&collapse=digest");
    proof {
        assert(r@ =~= snapshot_query_of(url@));
    }
    r
}

/// The replay URL serving the archived body of one snapshot verbatim.
pub open spec fn snapshot_content_of(timestamp: Seq<char>, url: Seq<char>) -> Seq<char> {
    "https://web.archive.org/web/"@ + timestamp + "/"@ + url
}

/// The replay URL of the snapshot taken at `timestamp` of `url`.
pub fn snapshot_content_url(timestamp: &str, url: &str) -> (r: String)
    ensures
        r@ == snapshot_content_of(timestamp@, url@),
{
    let mut r = String::from_str("https://web.archive.org/web/");
    r.append(timestamp);
    r.append("/");
    r.append(url);
    proof {
        assert(r@ =~= snapshot_content_of(timestamp@, url@));
    }
    r
}

/// The `robots.txt` target fetched for a domain in robots mode.
pub open spec fn robots_target_of(domain: Seq<char>) -> Seq<char> {
    domain + "/robots.txt"@
}

/// The `robots.txt` URL of `domain`.
pub fn robots_url(domain: &str) -> (r: String)
    ensures
        r@ == robots_target_of(domain@),
{
    let mut r = String::from_str(domain);
    r.append("/robots.txt");
    proof {
        assert(r@ =~= robots_target_of(domain@));
    }
    r
}

} // verus!
