//! Aggregators consuming fetched snapshot bodies: the content unifier,
//! which concatenates every body verbatim, and the robots aggregator,
//! which collects the deduplicated set of crawl paths found in archived
//! `robots.txt` snapshots.

use crate::text::{
    chars_contain, chars_remove_all, chars_to_string, chars_trim, contains_sub, lines_of,
    push_char, remove_all, split_lines, string_to_chars, trim,
};
use vstd::prelude::*;

verus! {

/// The outcome of one snapshot-content fetch.  A transport failure is
/// recovered locally — it contributes empty content and never aborts the
/// owning target's pipeline.
pub enum FetchResult {
    Body(String),
    TransportFailure,
}

/// The mathematical shadow of a `FetchResult`.
pub ghost enum FetchResultView {
    Body(Seq<char>),
    TransportFailure,
}

impl View for FetchResult {
    type V = FetchResultView;

    open spec fn view(&self) -> FetchResultView {
        match self {
            FetchResult::Body(b) => FetchResultView::Body(b@),
            FetchResult::TransportFailure => FetchResultView::TransportFailure,
        }
    }
}

impl DeepView for FetchResult {
    type V = FetchResultView;

    open spec fn deep_view(&self) -> FetchResultView {
        self.view()
    }
}

/// The content an outcome contributes: a failed fetch contributes none.
pub open spec fn content_of(r: FetchResultView) -> Seq<char> {
    match r {
        FetchResultView::Body(b) => b,
        FetchResultView::TransportFailure => Seq::empty(),
    }
}

/// Every body joined in fetch order, with no separator and no
/// deduplication: re-archived identical pages contribute their full
/// content once per snapshot, by design.
pub open spec fn unified(rs: Seq<FetchResultView>) -> Seq<char>
    decreases rs.len(),
{
    if rs.len() == 0 {
        Seq::empty()
    } else {
        unified(rs.drop_last()) + content_of(rs.last())
    }
}

/// The unify aggregation: all bodies concatenated in fetch order.
pub fn unify_content(results: &Vec<FetchResult>) -> (r: String)
    ensures
        r@ == unified(results.deep_view()),
{
    let ghost l = results.deep_view();
    let n = results.len();
    let mut r = String::new();
    let mut i: usize = 0;
    proof {
        assert(l.take(0) =~= Seq::<FetchResultView>::empty());
    }
    while i < n
        invariant
            n == l.len(),
            l == results.deep_view(),
            i <= n,
            r@ == unified(l.take(i as int)),
        decreases n - i,
    {
        proof {
            assert(l.take(i + 1).drop_last() =~= l.take(i as int));
            assert(l.take(i + 1).last() == l[i as int]);
        }
        match &results[i] {
            FetchResult::Body(b) => {
                r.append(b.as_str());
            },
            FetchResult::TransportFailure => {
                proof {
                    assert(r@ + content_of(l[i as int]) =~= r@);
                }
            },
        }
        i = i + 1;
    }
    proof {
        assert(l.take(n as int) =~= l);
    }
    r
}

/// A line is selected when it holds the marker `low:` — a cheap proxy for
/// both `Allow:` and `Disallow:` that also matches unrelated words such
/// as `below:`, a known false-positive source preserved as observed
/// behaviour.
pub open spec fn line_selected(line: Seq<char>) -> bool {
    contains_sub(line, "low:"@)
}

/// A selected line with the `Disallow:`/`Allow:` marker text removed and
/// surrounding whitespace trimmed: the crawl path it names.
pub open spec fn cleaned_path(line: Seq<char>) -> Seq<char> {
    trim(remove_all(remove_all(line, "Disallow:"@), "Allow:"@))
}

/// `acc` with the path of `line` added, unless the line is not selected
/// or the exact same path is already present.
pub open spec fn insert_path(acc: Seq<Seq<char>>, line: Seq<char>) -> Seq<Seq<char>> {
    if line_selected(line) {
        if acc.contains(cleaned_path(line)) {
            acc
        } else {
            acc.push(cleaned_path(line))
        }
    } else {
        acc
    }
}

/// `acc` grown over the lines of one body, front to back.
pub open spec fn add_lines(acc: Seq<Seq<char>>, lines: Seq<Seq<char>>) -> Seq<Seq<char>>
    decreases lines.len(),
{
    if lines.len() == 0 {
        acc
    } else {
        add_lines(insert_path(acc, lines.first()), lines.drop_first())
    }
}

/// `acc` grown over the fetched bodies, in fetch order.
pub open spec fn add_results(acc: Seq<Seq<char>>, rs: Seq<FetchResultView>) -> Seq<Seq<char>>
    decreases rs.len(),
{
    if rs.len() == 0 {
        acc
    } else {
        add_results(add_lines(acc, lines_of(content_of(rs.first()))), rs.drop_first())
    }
}

/// The robots aggregation: the deduplicated crawl paths of all bodies,
/// in first-seen order.
pub open spec fn robots_paths(rs: Seq<FetchResultView>) -> Seq<Seq<char>> {
    add_results(Seq::empty(), rs)
}

fn contains_string(v: &Vec<String>, s: &String) -> (r: bool)
    ensures
        r == v.deep_view().contains(s@),
{
    let n = v.len();
    let mut i: usize = 0;
    while i < n
        invariant
            n == v.deep_view().len(),
            i <= n,
            forall|j: int| 0 <= j < i ==> v.deep_view()[j] != s@,
        decreases n - i,
    {
        if v[i].eq(s) {
            proof {
                assert(v.deep_view()[i as int] == s@);
            }
            return true;
        }
        i = i + 1;
    }
    false
}

/// One line folded into the accumulated path list.
fn insert_path_line(acc: &mut Vec<String>, line: &str)
    ensures
        final(acc).deep_view() == insert_path(old(acc).deep_view(), line@),
{
    let chars = string_to_chars(line);
    let marker = string_to_chars("low:");
    if chars_contain(&chars, &marker) {
        let dis = string_to_chars("Disallow:");
        let alw = string_to_chars("Allow:");
        proof {
            reveal_strlit("Disallow:");
            reveal_strlit("Allow:");
        }
        let cleaned = chars_trim(&chars_remove_all(&chars_remove_all(&chars, &dis), &alw));
        let path = chars_to_string(&cleaned);
        proof {
            assert(path@ == cleaned_path(line@));
        }
        if !contains_string(acc, &path) {
            let ghost prev = acc.deep_view();
            acc.push(path);
            proof {
                assert(acc.deep_view() =~= prev.push(cleaned_path(line@)));
            }
        }
    }
}

/// One body's lines folded into the accumulated path list.
fn add_body_lines(acc: &mut Vec<String>, body: &str)
    ensures
        final(acc).deep_view() == add_lines(old(acc).deep_view(), lines_of(body@)),
{
    let lines = split_lines(body);
    let ghost lv = lines.deep_view();
    let n = lines.len();
    let mut j: usize = 0;
    proof {
        assert(lv.skip(0) =~= lv);
    }
    while j < n
        invariant
            n == lv.len(),
            lv == lines.deep_view(),
            j <= n,
            add_lines(acc.deep_view(), lv.skip(j as int)) == add_lines(
                old(acc).deep_view(),
                lv,
            ),
        decreases n - j,
    {
        proof {
            let rest = lv.skip(j as int);
            assert(rest.first() == lv[j as int]);
            assert(rest.drop_first() =~= lv.skip(j + 1));
        }
        insert_path_line(acc, lines[j].as_str());
        j = j + 1;
    }
    proof {
        assert(lv.skip(n as int) =~= Seq::<Seq<char>>::empty());
    }
}

/// The robots aggregation over all fetched bodies: each selected line's
/// path enters the list once, first seen first.
pub fn collect_robot_paths(results: &Vec<FetchResult>) -> (r: Vec<String>)
    ensures
        r.deep_view() == robots_paths(results.deep_view()),
{
    let ghost l = results.deep_view();
    let n = results.len();
    let mut acc: Vec<String> = Vec::new();
    let mut i: usize = 0;
    proof {
        assert(l.skip(0) =~= l);
        assert(acc.deep_view() =~= Seq::<Seq<char>>::empty());
    }
    while i < n
        invariant
            n == l.len(),
            l == results.deep_view(),
            i <= n,
            add_results(acc.deep_view(), l.skip(i as int)) == robots_paths(l),
        decreases n - i,
    {
        proof {
            let rest = l.skip(i as int);
            assert(rest.first() == l[i as int]);
            assert(rest.drop_first() =~= l.skip(i + 1));
        }
        match &results[i] {
            FetchResult::Body(b) => {
                add_body_lines(&mut acc, b.as_str());
            },
            FetchResult::TransportFailure => {
                proof {
                    assert(content_of(l[i as int]) =~= Seq::<char>::empty());
                    assert(lines_of(content_of(l[i as int])).len() == 0);
                }
            },
        }
        i = i + 1;
    }
    proof {
        assert(l.skip(n as int) =~= Seq::<FetchResultView>::empty());
    }
    acc
}

/// Each collected path on a line of its own, in collection order.
pub open spec fn joined_lines(ls: Seq<Seq<char>>) -> Seq<char>
    decreases ls.len(),
{
    if ls.len() == 0 {
        Seq::empty()
    } else {
        joined_lines(ls.drop_last()) + ls.last() + seq!['\n']
    }
}

/// The collected paths rendered one per line.
pub fn render_lines(paths: &Vec<String>) -> (r: String)
    ensures
        r@ == joined_lines(paths.deep_view()),
{
    let ghost l = paths.deep_view();
    let n = paths.len();
    let mut r = String::new();
    let mut i: usize = 0;
    proof {
        assert(l.take(0) =~= Seq::<Seq<char>>::empty());
    }
    while i < n
        invariant
            n == l.len(),
            l == paths.deep_view(),
            i <= n,
            r@ == joined_lines(l.take(i as int)),
        decreases n - i,
    {
        proof {
            assert(l.take(i + 1).drop_last() =~= l.take(i as int));
            assert(l.take(i + 1).last() == l[i as int]);
        }
        r.append(paths[i].as_str());
        push_char(&mut r, '\n');
        i = i + 1;
    }
    proof {
        assert(l.take(n as int) =~= l);
    }
    r
}

/// The whole robots aggregation of one target: the deduplicated crawl
/// paths of all fetched bodies, rendered one per line in first-seen
/// order.
pub fn robots_output(results: &Vec<FetchResult>) -> (r: String)
    ensures
        r@ == joined_lines(robots_paths(results.deep_view())),
{
    let paths = collect_robot_paths(results);
    render_lines(&paths)
}

/// No path appears twice.
pub open spec fn distinct_seqs(s: Seq<Seq<char>>) -> bool {
    forall|i: int, j: int| 0 <= i < j < s.len() ==> s[i] != s[j]
}

proof fn lemma_insert_path_distinct(acc: Seq<Seq<char>>, line: Seq<char>)
    requires
        distinct_seqs(acc),
    ensures
        distinct_seqs(insert_path(acc, line)),
{
    if line_selected(line) && !acc.contains(cleaned_path(line)) {
        let u = acc.push(cleaned_path(line));
        assert forall|i: int, j: int| 0 <= i < j < u.len() implies u[i] != u[j] by {
            if j == acc.len() as int {
                assert(acc[i] != cleaned_path(line));
            } else {
                assert(acc[i] != acc[j]);
            }
        }
    }
}

proof fn lemma_add_lines_distinct(acc: Seq<Seq<char>>, lines: Seq<Seq<char>>)
    requires
        distinct_seqs(acc),
    ensures
        distinct_seqs(add_lines(acc, lines)),
    decreases lines.len(),
{
    if lines.len() > 0 {
        lemma_insert_path_distinct(acc, lines.first());
        lemma_add_lines_distinct(insert_path(acc, lines.first()), lines.drop_first());
    }
}

proof fn lemma_add_results_distinct(acc: Seq<Seq<char>>, rs: Seq<FetchResultView>)
    requires
        distinct_seqs(acc),
    ensures
        distinct_seqs(add_results(acc, rs)),
    decreases rs.len(),
{
    if rs.len() > 0 {
        lemma_add_lines_distinct(acc, lines_of(content_of(rs.first())));
        lemma_add_results_distinct(
            add_lines(acc, lines_of(content_of(rs.first()))),
            rs.drop_first(),
        );
    }
}

/// Law: the robots aggregation never reports a path twice — a path
/// already present is not re-added, whatever bodies follow.
pub proof fn lemma_robots_paths_distinct(rs: Seq<FetchResultView>)
    ensures
        distinct_seqs(robots_paths(rs)),
{
    lemma_add_results_distinct(Seq::empty(), rs);
}

} // verus!
