//! Assembling the run's final output.  Every target runs as an
//! independent task; the orchestrator joins the per-target outputs in
//! launch order — input target order — regardless of which task finished
//! first.  This inter-target ordering is separate from the intra-target
//! ordering the scheduler guarantees.

use crate::text::push_char;
use vstd::prelude::*;

verus! {

/// The per-target outputs joined in launch order, nothing between them.
pub open spec fn concatenated(outputs: Seq<Seq<char>>) -> Seq<char>
    decreases outputs.len(),
{
    if outputs.len() == 0 {
        Seq::empty()
    } else {
        concatenated(outputs.drop_last()) + outputs.last()
    }
}

/// Join the per-target outputs in launch order.
pub fn concat_in_order(outputs: &Vec<String>) -> (r: String)
    ensures
        r@ == concatenated(outputs.deep_view()),
{
    let ghost l = outputs.deep_view();
    let n = outputs.len();
    let mut r = String::new();
    let mut i: usize = 0;
    proof {
        assert(l.take(0) =~= Seq::<Seq<char>>::empty());
    }
    while i < n
        invariant
            n == l.len(),
            l == outputs.deep_view(),
            i <= n,
            r@ == concatenated(l.take(i as int)),
        decreases n - i,
    {
        proof {
            assert(l.take(i + 1).drop_last() =~= l.take(i as int));
            assert(l.take(i + 1).last() == l[i as int]);
        }
        r.append(outputs[i].as_str());
        i = i + 1;
    }
    proof {
        assert(l.take(n as int) =~= l);
    }
    r
}

/// The listed URLs separated by newlines, none trailing — the shape of
/// the URL listing printed when no liveness check runs.
pub open spec fn newline_separated(ls: Seq<Seq<char>>) -> Seq<char>
    decreases ls.len(),
{
    if ls.len() == 0 {
        Seq::empty()
    } else if ls.len() == 1 {
        ls[0]
    } else {
        newline_separated(ls.drop_last()) + seq!['\n'] + ls.last()
    }
}

/// Join URLs with a newline between each pair.
pub fn join_with_newlines(urls: &Vec<String>) -> (r: String)
    ensures
        r@ == newline_separated(urls.deep_view()),
{
    let ghost l = urls.deep_view();
    let n = urls.len();
    let mut r = String::new();
    let mut i: usize = 0;
    proof {
        assert(l.take(0) =~= Seq::<Seq<char>>::empty());
    }
    while i < n
        invariant
            n == l.len(),
            l == urls.deep_view(),
            i <= n,
            r@ == newline_separated(l.take(i as int)),
        decreases n - i,
    {
        proof {
            assert(l.take(i + 1).drop_last() =~= l.take(i as int));
            assert(l.take(i + 1).last() == l[i as int]);
            if i == 0 {
                assert(l.take(1)[0] == l[0]);
            }
        }
        if i > 0 {
            push_char(&mut r, '\n');
        }
        r.append(urls[i].as_str());
        i = i + 1;
    }
    proof {
        assert(l.take(n as int) =~= l);
    }
    r
}

} // verus!
