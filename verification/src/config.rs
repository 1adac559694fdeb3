//! Normalising externally supplied configuration: the effective worker
//! count, the warnings the tool surfaces, and the extension and
//! status-code lists read from comma-separated arguments.

use crate::text::{all_digits, dec_value, parse_u16, split_at_char, split_on_char};
use crate::PipelineError;
use vstd::prelude::*;

verus! {

/// A positive delay forces strictly serial fetching.
pub open spec fn serial_mode(delay: u64) -> bool {
    delay > 0
}

/// The worker-pool width actually used: one whenever a delay is set —
/// an explicit worker count is then overridden — else the requested
/// count, with 24 as the default and a request of zero raised to one,
/// since a pool of width zero could never dispatch.
pub open spec fn effective_workers_of(delay: u64, requested: Option<usize>) -> usize {
    if delay > 0 {
        1usize
    } else {
        match requested {
            Some(w) => if w == 0 {
                1usize
            } else {
                w
            },
            None => 24usize,
        }
    }
}

/// The effective worker-pool width.
pub fn effective_workers(delay: u64, requested: Option<usize>) -> (r: usize)
    ensures
        r == effective_workers_of(delay, requested),
        r >= 1,
{
    if delay > 0 {
        1
    } else {
        match requested {
            Some(w) => if w == 0 {
                1
            } else {
                w
            },
            None => 24,
        }
    }
}

/// Whether to warn that an explicit worker count is silently overridden
/// because a delay is set.
pub fn worker_override_warning(delay: u64, requested: Option<usize>) -> (r: bool)
    ensures
        r == (delay > 0 && requested is Some),
{
    delay > 0 && requested.is_some()
}

/// Whether to warn that a delay is useless because no liveness check
/// will run.
pub fn delay_without_check_warning(delay: u64, check: bool) -> (r: bool)
    ensures
        r == (delay > 0 && !check),
{
    delay > 0 && !check
}

/// Whether to warn that both an allow and a deny extension list were
/// given — only the allow list will be used.
pub fn both_lists_warning(allow: &Vec<String>, deny: &Vec<String>) -> (r: bool)
    ensures
        r == (allow@.len() > 0 && deny@.len() > 0),
{
    allow.len() > 0 && deny.len() > 0
}

/// An extension normalised to a dot suffix.
pub open spec fn dotted(ext: Seq<char>) -> Seq<char> {
    seq!['.'] + ext
}

/// The extension list of a comma-separated argument, each entry
/// normalised to `.ext`.
pub open spec fn ext_list_of(arg: Seq<char>) -> Seq<Seq<char>> {
    split_at_char(arg, ',').map_values(|e: Seq<char>| dotted(e))
}

/// The comma-separated extension argument split and normalised.
pub fn parse_ext_list(arg: &str) -> (r: Vec<String>)
    ensures
        r.deep_view() == ext_list_of(arg@),
{
    let pieces = split_on_char(arg, ',');
    let ghost ps = pieces.deep_view();
    let n = pieces.len();
    let mut out: Vec<String> = Vec::new();
    let mut i: usize = 0;
    while i < n
        invariant
            n == ps.len(),
            ps == pieces.deep_view(),
            i <= n,
            out.deep_view().len() == i,
            forall|k: int| 0 <= k < i ==> out.deep_view()[k] == dotted(ps[k]),
        decreases n - i,
    {
        let mut e = String::new();
        crate::text::push_char(&mut e, '.');
        e.append(pieces[i].as_str());
        proof {
            assert(ps[i as int] == pieces@[i as int]@);
            assert(e@ =~= dotted(ps[i as int]));
        }
        let ghost prev = out.deep_view();
        out.push(e);
        proof {
            assert(out.deep_view() =~= prev.push(dotted(ps[i as int])));
        }
        i = i + 1;
    }
    proof {
        assert(out.deep_view() =~= ext_list_of(arg@));
    }
    out
}

/// A status-code token is well formed when it is a plain decimal numeral
/// fitting a `u16`.
pub open spec fn code_ok(p: Seq<char>) -> bool {
    p.len() > 0 && all_digits(p) && dec_value(p) <= u16::MAX
}

/// The comma-separated status-code argument parsed; one bad token is a
/// configuration error, and the first such token is reported.
pub fn parse_code_list(arg: &str) -> (r: Result<Vec<u16>, PipelineError>)
    ensures
        r is Ok <==> (forall|k: int|
            0 <= k < split_at_char(arg@, ',').len() ==> code_ok(split_at_char(arg@, ',')[k])),
        r matches Ok(v) ==> {
            &&& v@.len() == split_at_char(arg@, ',').len()
            &&& forall|k: int|
                0 <= k < v@.len() ==> v@[k] as int == dec_value(split_at_char(arg@, ',')[k])
        },
        r matches Err(e) ==> (exists|i: int|
            {
                &&& 0 <= i < split_at_char(arg@, ',').len()
                &&& !code_ok(split_at_char(arg@, ',')[i])
                &&& (forall|j: int| 0 <= j < i ==> code_ok(split_at_char(arg@, ',')[j]))
                &&& e matches PipelineError::Config(tok) && tok@ == split_at_char(arg@, ',')[i]
            }),
{
    let pieces = split_on_char(arg, ',');
    let ghost ps = pieces.deep_view();
    let n = pieces.len();
    let mut out: Vec<u16> = Vec::new();
    let mut i: usize = 0;
    while i < n
        invariant
            n == ps.len(),
            ps == pieces.deep_view(),
            ps == split_at_char(arg@, ','),
            i <= n,
            out@.len() == i,
            forall|j: int| 0 <= j < i ==> code_ok(ps[j]),
            forall|j: int| 0 <= j < i ==> out@[j] as int == dec_value(ps[j]),
        decreases n - i,
    {
        proof {
            assert(ps[i as int] == pieces@[i as int]@);
        }
        match parse_u16(pieces[i].as_str()) {
            Some(code) => {
                out.push(code);
            },
            None => {
                return Err(PipelineError::Config(pieces[i].clone()));
            },
        }
        i = i + 1;
    }
    Ok(out)
}

} // verus!
