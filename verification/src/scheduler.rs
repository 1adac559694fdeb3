//! The fetch scheduler: a state machine dispatching per-URL liveness
//! checks under one of two disciplines — strictly serial when a delay is
//! configured, else a bounded pool of concurrently in-flight fetches —
//! and assembling the kept output lines.  The unverified binary around
//! the library performs the HTTP calls, asking `start_next` what to
//! dispatch and handing each result back through `complete`.
//!
//! Two ordering guarantees live here, separately stated: in serial mode
//! the output lines stand in input order; in parallel mode the output is
//! a permutation of the same line set, whatever the completion order.

use crate::config::{effective_workers, effective_workers_of, serial_mode};
use crate::filter::{status_keep, status_kept};
use crate::text::push_char;
use vstd::prelude::*;

verus! {

/// What one completed liveness check observed: the numeric status, its
/// rendered form (for instance `301 Moved Permanently`), and the
/// `Location` header where one was present.
pub struct CheckResponse {
    pub status: u16,
    pub status_text: String,
    pub location: Option<String>,
}

/// The mathematical shadow of a `CheckResponse`.
pub ghost struct CheckResponseView {
    pub status: u16,
    pub status_text: Seq<char>,
    pub location: Option<Seq<char>>,
}

impl View for CheckResponse {
    type V = CheckResponseView;

    open spec fn view(&self) -> CheckResponseView {
        CheckResponseView {
            status: self.status,
            status_text: self.status_text@,
            location: match self.location {
                Some(ref l) => Some(l@),
                None => None,
            },
        }
    }
}

/// The outcome of one dispatched fetch: a response, or a transport
/// failure, which produces no output line and is never retried.
pub enum CheckOutcome {
    Response(CheckResponse),
    TransportFailure,
}

/// The mathematical shadow of a `CheckOutcome`.
pub ghost enum CheckOutcomeView {
    Response(CheckResponseView),
    TransportFailure,
}

impl View for CheckOutcome {
    type V = CheckOutcomeView;

    open spec fn view(&self) -> CheckOutcomeView {
        match self {
            CheckOutcome::Response(r) => CheckOutcomeView::Response(r@),
            CheckOutcome::TransportFailure => CheckOutcomeView::TransportFailure,
        }
    }
}

/// A status in the redirect range.
pub open spec fn is_redirection(status: u16) -> bool {
    300 <= status < 400
}

/// The Location text shown for a redirect: the header's value, or
/// nothing where the header was missing.
pub open spec fn location_text(location: Option<Seq<char>>) -> Seq<char> {
    match location {
        Some(l) => l,
        None => Seq::empty(),
    }
}

/// The output line of one kept response: the URL and the rendered
/// status, with `to <Location>` appended on a redirect — which is
/// captured, never followed.
pub open spec fn check_line(url: Seq<char>, r: CheckResponseView) -> Seq<char> {
    if is_redirection(r.status) {
        url + seq![' '] + r.status_text + " to "@ + location_text(r.location) + seq!['\n']
    } else {
        url + seq![' '] + r.status_text + seq!['\n']
    }
}

/// One kept response's line, rendered.
pub fn format_check_line(url: &str, resp: &CheckResponse) -> (r: String)
    ensures
        r@ == check_line(url@, resp@),
{
    let mut out = String::from_str(url);
    push_char(&mut out, ' ');
    out.append(resp.status_text.as_str());
    if 300 <= resp.status && resp.status < 400 {
        out.append(" to ");
        match &resp.location {
            Some(l) => {
                out.append(l.as_str());
            },
            None => {},
        }
    }
    push_char(&mut out, '\n');
    proof {
        assert(out@ =~= check_line(url@, resp@));
    }
    out
}

/// One completion event: which URL index finished, and with what.
pub ghost struct Completion {
    pub idx: int,
    pub outcome: CheckOutcomeView,
}

/// The lines (none or one) that one completion contributes.
pub open spec fn completion_lines(
    urls: Seq<Seq<char>>,
    e: Completion,
    allow: Seq<u16>,
    deny: Seq<u16>,
) -> Seq<Seq<char>> {
    match e.outcome {
        CheckOutcomeView::Response(r) => if status_keep(r.status, allow, deny) {
            seq![check_line(urls[e.idx], r)]
        } else {
            Seq::empty()
        },
        CheckOutcomeView::TransportFailure => Seq::empty(),
    }
}

/// The kept lines of a whole completion history, in completion order.
pub open spec fn history_lines(
    urls: Seq<Seq<char>>,
    h: Seq<Completion>,
    allow: Seq<u16>,
    deny: Seq<u16>,
) -> Seq<Seq<char>>
    decreases h.len(),
{
    if h.len() == 0 {
        Seq::empty()
    } else {
        history_lines(urls, h.drop_last(), allow, deny) + completion_lines(
            urls,
            h.last(),
            allow,
            deny,
        )
    }
}

/// A sequence of lines joined into one output string.
pub open spec fn concat_lines(ls: Seq<Seq<char>>) -> Seq<char>
    decreases ls.len(),
{
    if ls.len() == 0 {
        Seq::empty()
    } else {
        concat_lines(ls.drop_last()) + ls.last()
    }
}

/// The liveness-check scheduler for one target's URL list.
pub struct UrlChecker {
    urls: Vec<String>,
    status_allow: Vec<u16>,
    status_deny: Vec<u16>,
    serial: bool,
    width: usize,
    next: usize,
    completed: Vec<bool>,
    in_flight: usize,
    output: String,
    history: Ghost<Seq<Completion>>,
}

impl UrlChecker {
    /// The URL list under check.
    pub closed spec fn urls_v(&self) -> Seq<Seq<char>> {
        self.urls.deep_view()
    }

    /// The status allow list.
    pub closed spec fn allow_v(&self) -> Seq<u16> {
        self.status_allow@
    }

    /// The status deny list.
    pub closed spec fn deny_v(&self) -> Seq<u16> {
        self.status_deny@
    }

    /// Whether the checker runs strictly serially.
    pub closed spec fn is_serial(&self) -> bool {
        self.serial
    }

    /// The bound on concurrently in-flight fetches.
    pub closed spec fn width_v(&self) -> int {
        self.width as int
    }

    /// How many URLs have been handed out so far.
    pub closed spec fn next_v(&self) -> int {
        self.next as int
    }

    /// How many dispatched fetches have not completed yet.
    pub closed spec fn in_flight_v(&self) -> int {
        self.in_flight as int
    }

    /// Whether the fetch of URL `i` has been handed out.
    pub open spec fn started(&self, i: int) -> bool {
        i < self.next_v()
    }

    /// Whether the fetch of URL `i` has completed.
    pub closed spec fn is_completed(&self, i: int) -> bool {
        self.completed@[i]
    }

    /// The completions accepted so far, in acceptance order.
    pub closed spec fn hist(&self) -> Seq<Completion> {
        self.history@
    }

    /// The output assembled so far.
    pub closed spec fn out_v(&self) -> Seq<char> {
        self.output@
    }

    /// The indices of the accepted completions.
    pub closed spec fn hist_indices(&self) -> Seq<int> {
        self.history@.map_values(|e: Completion| e.idx)
    }

    /// The machine's invariant: bookkeeping is consistent, every
    /// completion belongs to a dispatched URL and no URL completes
    /// twice, the output is exactly the kept lines of the history in
    /// acceptance order, and in serial mode the history indices are
    /// `0, 1, 2, …` — completions can only be accepted in input order.
    pub closed spec fn wf(&self) -> bool {
        &&& self.completed@.len() == self.urls@.len()
        &&& self.next as int <= self.urls@.len()
        &&& self.width >= 1
        &&& (self.serial ==> self.width == 1)
        &&& self.in_flight as int <= self.width as int
        &&& self.history@.len() + self.in_flight as int == self.next as int
        &&& (forall|k: int|
            0 <= k < self.history@.len() ==> 0 <= #[trigger] self.history@[k].idx
                < self.next as int)
        &&& (forall|k: int|
            0 <= k < self.history@.len() ==> self.completed@[#[trigger] self.history@[k].idx])
        &&& (forall|i: int|
            0 <= i < self.completed@.len() && #[trigger] self.completed@[i] ==> i
                < self.next as int)
        &&& (forall|i: int|
            0 <= i < self.completed@.len() && #[trigger] self.completed@[i] ==> (exists|k: int|
                0 <= k < self.history@.len() && #[trigger] self.history@[k].idx == i))
        &&& (forall|k1: int, k2: int|
            0 <= k1 < k2 < self.history@.len() ==> #[trigger] self.history@[k1].idx
                != #[trigger] self.history@[k2].idx)
        &&& (self.serial ==> (forall|k: int|
            0 <= k < self.history@.len() ==> #[trigger] self.history@[k].idx == k))
        &&& self.output@ == concat_lines(
            history_lines(self.urls.deep_view(), self.history@, self.status_allow@,
            self.status_deny@),
        )
    }

    /// A fresh checker: nothing dispatched, nothing completed, empty
    /// output; serial exactly when a delay is set, and the worker bound
    /// the effective one for that delay and request.
    pub fn new(
        urls: Vec<String>,
        status_allow: Vec<u16>,
        status_deny: Vec<u16>,
        delay: u64,
        requested_workers: Option<usize>,
    ) -> (r: Self)
        ensures
            r.wf(),
            r.urls_v() == urls.deep_view(),
            r.allow_v() == status_allow@,
            r.deny_v() == status_deny@,
            r.is_serial() == serial_mode(delay),
            r.width_v() == effective_workers_of(delay, requested_workers) as int,
            r.hist() == Seq::<Completion>::empty(),
            r.out_v() == Seq::<char>::empty(),
            r.next_v() == 0,
            r.in_flight_v() == 0,
    {
        let width = effective_workers(delay, requested_workers);
        let n = urls.len();
        let mut completed: Vec<bool> = Vec::new();
        let mut i: usize = 0;
        while i < n
            invariant
                i <= n,
                completed@.len() == i,
                forall|j: int| 0 <= j < i ==> !completed@[j],
            decreases n - i,
        {
            completed.push(false);
            i = i + 1;
        }
        let r = UrlChecker {
            urls,
            status_allow,
            status_deny,
            serial: delay > 0,
            width,
            next: 0,
            completed,
            in_flight: 0,
            output: String::new(),
            history: Ghost(Seq::empty()),
        };
        proof {
            assert(history_lines(r.urls.deep_view(), r.history@, r.status_allow@,
                r.status_deny@) =~= Seq::<Seq<char>>::empty());
        }
        r
    }

    /// How many URLs the checker holds.
    pub fn url_count(&self) -> (r: usize)
        ensures
            r == self.urls_v().len(),
    {
        self.urls.len()
    }

    /// The URL at `i`, for the caller to fetch.
    pub fn url_at(&self, i: usize) -> (r: String)
        requires
            i < self.urls_v().len(),
        ensures
            r@ == self.urls_v()[i as int],
    {
        self.urls[i].clone()
    }

    /// Whether every URL has been dispatched and every dispatch has
    /// completed.
    pub fn done(&self) -> (r: bool)
        ensures
            r == (self.next_v() == self.urls_v().len() && self.in_flight_v() == 0),
    {
        self.next == self.urls.len() && self.in_flight == 0
    }

    /// The next URL index to dispatch, if the list is not exhausted and
    /// a slot is free — in serial mode that means the previous fetch has
    /// completed.  Nothing else changes.
    pub fn start_next(&mut self) -> (r: Option<usize>)
        requires
            old(self).wf(),
        ensures
            final(self).wf(),
            final(self).urls_v() == old(self).urls_v(),
            final(self).allow_v() == old(self).allow_v(),
            final(self).deny_v() == old(self).deny_v(),
            final(self).is_serial() == old(self).is_serial(),
            final(self).width_v() == old(self).width_v(),
            final(self).hist() == old(self).hist(),
            final(self).out_v() == old(self).out_v(),
            r is Some <==> (old(self).next_v() < old(self).urls_v().len() && old(
                self,
            ).in_flight_v() < old(self).width_v()),
            r matches Some(i) ==> {
                &&& i as int == old(self).next_v()
                &&& final(self).next_v() == old(self).next_v() + 1
                &&& final(self).in_flight_v() == old(self).in_flight_v() + 1
                &&& forall|j: int|
                    0 <= j < final(self).urls_v().len() ==> final(self).is_completed(j) == old(
                        self,
                    ).is_completed(j)
            },
            r is None ==> *final(self) == *old(self),
    {
        if self.next < self.urls.len() && self.in_flight < self.width {
            let i = self.next;
            self.next = self.next + 1;
            self.in_flight = self.in_flight + 1;
            Some(i)
        } else {
            None
        }
    }
}

/// Distinct indices drawn from `[0, n)` that all avoid one value of that
/// range cannot number `n`.
proof fn lemma_indices_bound(idx: Seq<int>, n: int, missing: int)
    requires
        idx.no_duplicates(),
        forall|k: int| 0 <= k < idx.len() ==> 0 <= #[trigger] idx[k] < n && idx[k] != missing,
        0 <= missing < n,
    ensures
        idx.len() < n,
{
    broadcast use vstd::set::group_set_axioms;

    idx.unique_seq_to_set();
    let s = idx.to_set();
    let range = vstd::set_lib::set_int_range(0, n);
    let r = range.remove(missing);
    vstd::set_lib::lemma_int_range(0, n);
    assert forall|x: int| s.contains(x) implies r.contains(x) by {
        assert(idx.contains(x));
        let k = choose|k: int| 0 <= k < idx.len() && idx[k] == x;
        assert(0 <= idx[k] < n && idx[k] != missing);
    }
    assert(s.subset_of(r));
    assert(range.contains(missing));
    assert(r.len() == n - 1);
    vstd::set_lib::lemma_len_subset(s, r);
}

impl UrlChecker {
    /// Feed back the outcome of the fetch of URL `i`.  The URL is marked
    /// completed, its slot is freed, and — where the response's status
    /// survives the status lists — its line is appended to the output
    /// and returned for immediate printing.  A transport failure or a
    /// filtered status contributes nothing.
    pub fn complete(&mut self, i: usize, outcome: CheckOutcome) -> (r: Option<String>)
        requires
            old(self).wf(),
            i < old(self).urls_v().len(),
            old(self).started(i as int),
            !old(self).is_completed(i as int),
        ensures
            final(self).wf(),
            final(self).urls_v() == old(self).urls_v(),
            final(self).allow_v() == old(self).allow_v(),
            final(self).deny_v() == old(self).deny_v(),
            final(self).is_serial() == old(self).is_serial(),
            final(self).width_v() == old(self).width_v(),
            final(self).next_v() == old(self).next_v(),
            final(self).in_flight_v() == old(self).in_flight_v() - 1,
            final(self).hist() == old(self).hist().push(
                Completion { idx: i as int, outcome: outcome@ },
            ),
            final(self).is_completed(i as int),
            forall|j: int|
                0 <= j < old(self).urls_v().len() && j != i ==> final(self).is_completed(j)
                    == old(self).is_completed(j),
            r is Some <==> (outcome@ matches CheckOutcomeView::Response(resp)
                && status_keep(resp.status, old(self).allow_v(), old(self).deny_v())),
            r matches Some(line) ==> (outcome@ matches CheckOutcomeView::Response(resp)
                && line@ == check_line(old(self).urls_v()[i as int], resp) && final(self).out_v()
                == old(self).out_v() + line@),
            r is None ==> final(self).out_v() == old(self).out_v(),
    {
        proof {
            let idx = self.hist_indices();
            assert(forall|k: int|
                0 <= k < idx.len() ==> #[trigger] idx[k] == self.history@[k].idx);
            assert(idx.no_duplicates());
            assert forall|k: int|
                0 <= k < idx.len() implies 0 <= #[trigger] idx[k] < self.next as int && idx[k]
                != i as int by {
                assert(self.completed@[self.history@[k].idx]);
            }
            lemma_indices_bound(idx, self.next as int, i as int);
        }
        let ghost e = Completion { idx: i as int, outcome: outcome@ };
        let ghost prev = *self;
        self.completed.set(i, true);
        self.in_flight = self.in_flight - 1;
        proof {
            self.history@ = self.history@.push(e);
        }
        let r = match outcome {
            CheckOutcome::Response(resp) => {
                if status_kept(resp.status, &self.status_allow, &self.status_deny) {
                    let url = self.urls[i].clone();
                    let line = format_check_line(url.as_str(), &resp);
                    self.output.append(line.as_str());
                    Some(line)
                } else {
                    None
                }
            },
            CheckOutcome::TransportFailure => None,
        };
        proof {
            let urls = self.urls.deep_view();
            let h1 = self.history@;
            let h0 = prev.history@;
            assert(h1.drop_last() =~= h0);
            assert(h1.last() == e);
            // the new completion is of a URL no earlier completion names
            assert forall|k: int|
                0 <= k < h0.len() implies #[trigger] h0[k].idx != i as int by {
                assert(prev.completed@[h0[k].idx]);
            }
            // in serial mode the accepted completion is the next index
            if self.serial {
                if (i as int) < h0.len() {
                    assert(h0[i as int].idx == i as int);
                    assert(prev.completed@[i as int]);
                    assert(false);
                }
                assert(h0.len() + prev.in_flight as int == prev.next as int);
                assert(prev.in_flight <= 1);
                assert(i as int == h0.len());
            }
            // the output is the old output plus this completion's lines
            let ls0 = history_lines(urls, h0, self.status_allow@, self.status_deny@);
            let ls1 = history_lines(urls, h1, self.status_allow@, self.status_deny@);
            assert(ls1 == ls0 + completion_lines(urls, e, self.status_allow@, self.status_deny@));
            match e.outcome {
                CheckOutcomeView::Response(resp) => {
                    if status_keep(resp.status, self.status_allow@, self.status_deny@) {
                        let line = check_line(urls[i as int], resp);
                        assert(ls1 =~= ls0.push(line));
                        assert(ls1.drop_last() =~= ls0);
                        assert(concat_lines(ls1) == concat_lines(ls0) + line);
                    } else {
                        assert(ls1 =~= ls0);
                        assert(self.output@ + Seq::<char>::empty() =~= self.output@);
                    }
                },
                CheckOutcomeView::TransportFailure => {
                    assert(ls1 =~= ls0);
                },
            }
            // the invariant clause by clause
            assert forall|k: int|
                0 <= k < h1.len() implies 0 <= #[trigger] h1[k].idx < self.next as int by {
                if k < h0.len() {
                    assert(h1[k] == h0[k]);
                }
            }
            assert forall|k: int|
                0 <= k < h1.len() implies self.completed@[#[trigger] h1[k].idx] by {
                if k < h0.len() {
                    assert(h1[k] == h0[k]);
                    assert(prev.completed@[h0[k].idx]);
                    assert(h0[k].idx != i as int);
                }
            }
            assert forall|j: int|
                0 <= j < self.completed@.len() && #[trigger] self.completed@[j] implies j
                < self.next as int by {
                if j != i as int {
                    assert(prev.completed@[j]);
                }
            }
            assert forall|j: int|
                0 <= j < self.completed@.len() && #[trigger] self.completed@[j] implies (
            exists|k: int| 0 <= k < h1.len() && #[trigger] h1[k].idx == j) by {
                if j == i as int {
                    assert(h1[h0.len() as int].idx == j);
                } else {
                    assert(prev.completed@[j]);
                    let k = choose|k: int| 0 <= k < h0.len() && #[trigger] h0[k].idx == j;
                    assert(h1[k].idx == j);
                }
            }
            assert forall|k1: int, k2: int|
                0 <= k1 < k2 < h1.len() implies #[trigger] h1[k1].idx != #[trigger] h1[k2].idx by {
                if k2 == h0.len() as int {
                    assert(h1[k1] == h0[k1]);
                    assert(h0[k1].idx != i as int);
                } else {
                    assert(h1[k1] == h0[k1]);
                    assert(h1[k2] == h0[k2]);
                }
            }
            if self.serial {
                assert forall|k: int| 0 <= k < h1.len() implies #[trigger] h1[k].idx == k by {
                    if k < h0.len() {
                        assert(h1[k] == h0[k]);
                    }
                }
            }
        }
        r
    }
}

impl UrlChecker {
    /// The output assembled so far.
    pub fn into_output(self) -> (r: String)
        ensures
            r@ == self.out_v(),
    {
        self.output
    }
}

/// Law: in serial mode — a positive delay — the checker accepts
/// completions only in input order: the `k`-th accepted completion is of
/// URL `k`, and the assembled output is the kept lines of those
/// completions in exactly that order, whatever latency each request had.
pub proof fn lemma_serial_output_in_order(c: &UrlChecker)
    requires
        c.wf(),
        c.is_serial(),
    ensures
        forall|k: int| 0 <= k < c.hist().len() ==> #[trigger] c.hist()[k].idx == k,
        c.out_v() == concat_lines(history_lines(c.urls_v(), c.hist(), c.allow_v(), c.deny_v())),
{
}

/// Removing one completion from a history removes exactly its lines
/// from the history's line multiset.
proof fn lemma_history_lines_remove(
    urls: Seq<Seq<char>>,
    h: Seq<Completion>,
    allow: Seq<u16>,
    deny: Seq<u16>,
    j: int,
)
    requires
        0 <= j < h.len(),
    ensures
        history_lines(urls, h, allow, deny).to_multiset() == history_lines(
            urls,
            h.remove(j),
            allow,
            deny,
        ).to_multiset().add(completion_lines(urls, h[j], allow, deny).to_multiset()),
    decreases h.len(),
{
    broadcast use vstd::seq_lib::group_to_multiset_ensures;

    if j == h.len() - 1 {
        assert(h.remove(j) =~= h.drop_last());
        vstd::seq_lib::lemma_multiset_commutative(
            history_lines(urls, h.drop_last(), allow, deny),
            completion_lines(urls, h.last(), allow, deny),
        );
    } else {
        let t = h.drop_last();
        lemma_history_lines_remove(urls, t, allow, deny, j);
        assert(h.remove(j).drop_last() =~= t.remove(j));
        assert(h.remove(j).last() == h.last());
        assert(h[j] == t[j]);
        vstd::seq_lib::lemma_multiset_commutative(
            history_lines(urls, t, allow, deny),
            completion_lines(urls, h.last(), allow, deny),
        );
        vstd::seq_lib::lemma_multiset_commutative(
            history_lines(urls, t.remove(j), allow, deny),
            completion_lines(urls, h.last(), allow, deny),
        );
        assert(history_lines(urls, h, allow, deny).to_multiset() =~= history_lines(
            urls,
            h.remove(j),
            allow,
            deny,
        ).to_multiset().add(completion_lines(urls, h[j], allow, deny).to_multiset()));
    }
}

/// Law: two histories that complete the same fetches — the same
/// multiset of (URL index, outcome) pairs — in any two orders produce
/// the same multiset of output lines.  In parallel mode the output is a
/// permutation of one line set; only set equality is guaranteed across
/// runs.
pub proof fn lemma_parallel_output_permutation(
    urls: Seq<Seq<char>>,
    allow: Seq<u16>,
    deny: Seq<u16>,
    h1: Seq<Completion>,
    h2: Seq<Completion>,
)
    requires
        h1.to_multiset() == h2.to_multiset(),
    ensures
        history_lines(urls, h1, allow, deny).to_multiset() == history_lines(
            urls,
            h2,
            allow,
            deny,
        ).to_multiset(),
    decreases h1.len(),
{
    broadcast use vstd::seq_lib::group_to_multiset_ensures;

    if h1.len() == 0 {
        assert(h1.to_multiset().len() == h1.len());
        assert(h2.to_multiset().len() == h2.len());
        assert(h2.len() == 0);
    } else {
        let e = h1.last();
        assert(h1.contains(e));
        assert(h2.to_multiset().count(e) > 0);
        assert(h2.contains(e));
        let j = choose|j: int| 0 <= j < h2.len() && h2[j] == e;
        let t1 = h1.drop_last();
        let t2 = h2.remove(j);
        assert(h1.remove(h1.len() - 1) =~= t1);
        assert(t1.to_multiset() =~= t2.to_multiset());
        lemma_parallel_output_permutation(urls, allow, deny, t1, t2);
        lemma_history_lines_remove(urls, h2, allow, deny, j);
        vstd::seq_lib::lemma_multiset_commutative(
            history_lines(urls, t1, allow, deny),
            completion_lines(urls, e, allow, deny),
        );
        assert(history_lines(urls, h1, allow, deny).to_multiset() =~= history_lines(
            urls,
            h2,
            allow,
            deny,
        ).to_multiset());
    }
}

/// Some completion of `h` is of URL `i`.
pub open spec fn covers(h: Seq<Completion>, i: int) -> bool {
    exists|k: int| 0 <= k < h.len() && #[trigger] h[k].idx == i
}

/// A history that completes every URL of `outcomes` exactly once, each
/// with the outcome assigned to it.
pub open spec fn complete_history_of(h: Seq<Completion>, outcomes: Seq<CheckOutcomeView>) -> bool {
    &&& h.len() == outcomes.len()
    &&& (forall|k: int|
        0 <= k < h.len() ==> 0 <= #[trigger] h[k].idx < outcomes.len() && h[k].outcome
            == outcomes[h[k].idx])
    &&& (forall|k1: int, k2: int|
        0 <= k1 < k2 < h.len() ==> #[trigger] h[k1].idx != #[trigger] h[k2].idx)
    &&& (forall|i: int| 0 <= i < outcomes.len() ==> #[trigger] covers(h, i))
}

/// The history that completes `outcomes` in input order.
pub open spec fn in_order_history(outcomes: Seq<CheckOutcomeView>) -> Seq<Completion> {
    Seq::new(outcomes.len(), |i: int| Completion { idx: i, outcome: outcomes[i] })
}

/// Every complete history of `outcomes` is a permutation of the
/// in-order one.
proof fn lemma_complete_history_multiset(h: Seq<Completion>, outcomes: Seq<CheckOutcomeView>)
    requires
        complete_history_of(h, outcomes),
    ensures
        h.to_multiset() == in_order_history(outcomes).to_multiset(),
    decreases outcomes.len(),
{
    broadcast use vstd::seq_lib::group_to_multiset_ensures;

    let n = outcomes.len() as int;
    if n == 0 {
        assert(h.len() == 0);
        assert(in_order_history(outcomes).len() == 0);
        assert(h.to_multiset() =~= in_order_history(outcomes).to_multiset());
    } else {
        assert(covers(h, n - 1));
        let k0 = choose|k: int| 0 <= k < h.len() && #[trigger] h[k].idx == n - 1;
        assert(0 <= k0 < h.len() && h[k0].idx == n - 1);
        let e = h[k0];
        let hp = h.remove(k0);
        let op = outcomes.drop_last();
        assert forall|k: int|
            0 <= k < hp.len() implies 0 <= #[trigger] hp[k].idx < op.len() && hp[k].outcome
            == op[hp[k].idx] by {
            let k_orig: int = if k < k0 {
                k
            } else {
                k + 1
            };
            assert(hp[k] == h[k_orig]);
            assert(h[k_orig].idx != n - 1);
        }
        assert forall|k1: int, k2: int|
            0 <= k1 < k2 < hp.len() implies #[trigger] hp[k1].idx != #[trigger] hp[k2].idx by {
            let a: int = if k1 < k0 {
                k1
            } else {
                k1 + 1
            };
            let b: int = if k2 < k0 {
                k2
            } else {
                k2 + 1
            };
            assert(hp[k1] == h[a]);
            assert(hp[k2] == h[b]);
        }
        assert forall|i: int| 0 <= i < op.len() implies #[trigger] covers(hp, i) by {
            assert(covers(h, i));
            let k = choose|k: int| 0 <= k < h.len() && #[trigger] h[k].idx == i;
            assert(0 <= k < h.len() && h[k].idx == i);
            assert(k != k0);
            let kp: int = if k < k0 {
                k
            } else {
                k - 1
            };
            assert(0 <= kp < hp.len());
            assert(hp[kp] == h[k]);
            assert(hp[kp].idx == i);
        }
        assert(complete_history_of(hp, op));
        lemma_complete_history_multiset(hp, op);
        // put the removed completion back on both sides
        assert(hp.to_multiset() == h.to_multiset().remove(e));
        assert(h.to_multiset().count(e) > 0);
        assert(h.to_multiset() =~= hp.to_multiset().insert(e));
        let ord = in_order_history(outcomes);
        assert(ord.drop_last() =~= in_order_history(op));
        assert(ord.last() == Completion { idx: n - 1, outcome: outcomes[n - 1] });
        assert(e == Completion { idx: n - 1, outcome: outcomes[n - 1] });
        assert(in_order_history(op).push(ord.last()) =~= ord);
        assert(ord.to_multiset() =~= in_order_history(op).to_multiset().insert(e));
    }
}

/// Law: two runs that each complete every URL once, with the same
/// outcome per URL, produce the same multiset of output lines whatever
/// order the completions arrived in — only the order may differ between
/// runs.
pub proof fn lemma_complete_runs_same_line_set(
    urls: Seq<Seq<char>>,
    allow: Seq<u16>,
    deny: Seq<u16>,
    outcomes: Seq<CheckOutcomeView>,
    h1: Seq<Completion>,
    h2: Seq<Completion>,
)
    requires
        complete_history_of(h1, outcomes),
        complete_history_of(h2, outcomes),
    ensures
        history_lines(urls, h1, allow, deny).to_multiset() == history_lines(
            urls,
            h2,
            allow,
            deny,
        ).to_multiset(),
{
    lemma_complete_history_multiset(h1, outcomes);
    lemma_complete_history_multiset(h2, outcomes);
    lemma_parallel_output_permutation(urls, allow, deny, h1, h2);
}

} // verus!
