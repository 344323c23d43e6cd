//! The rules of the latency prober.
//!
//! The requests and the worker tasks are the caller's; this module decides
//! what a worker does next, how many results are waited for, and the order
//! in which they are reported.

use vstd::prelude::*;

verus! {

/// Seconds after which a connectivity probe is given up.
pub const CONNECT_TIMEOUT: u64 = 5;

/// Seconds after which a download probe is given up.
pub const DOWNLOAD_TIMEOUT: u64 = 10;

/// What came back from one request.
#[derive(Debug)]
pub enum Response {
    /// A response with a status code and, where it has one, the target of
    /// its `location` header.
    Status { code: u16, location: Option<String> },
    /// No response: the connection failed or the request timed out.
    Failed,
}

/// What a worker does next.
#[derive(Debug)]
pub enum Action {
    /// Send a request to this address and time it.
    Request(String),
    /// Report the probe as reachable (`true`) or failed (`false`).
    Finish(bool),
}

/// A [`Response`] with its text as a character sequence.
pub enum ResponseView {
    Status { code: u16, location: Option<Seq<char>> },
    Failed,
}

/// An [`Action`] with its text as a character sequence.
pub enum ActionView {
    Request(Seq<char>),
    Finish(bool),
}

impl View for Response {
    type V = ResponseView;

    open spec fn view(&self) -> ResponseView {
        match self {
            Response::Status { code, location } => ResponseView::Status {
                code: *code,
                location: match location {
                    Some(l) => Some(l@),
                    None => None,
                },
            },
            Response::Failed => ResponseView::Failed,
        }
    }
}

impl View for Action {
    type V = ActionView;

    open spec fn view(&self) -> ActionView {
        match self {
            Action::Request(u) => ActionView::Request(u@),
            Action::Finish(ok) => ActionView::Finish(*ok),
        }
    }
}

/// The seconds after which a probe is given up: fewer for a connectivity
/// probe than for a download probe.
pub fn timeout(is_connect_only: bool) -> (secs: u64)
    ensures
        secs == (if is_connect_only {
            CONNECT_TIMEOUT
        } else {
            DOWNLOAD_TIMEOUT
        }),
{
    if is_connect_only {
        CONNECT_TIMEOUT
    } else {
        DOWNLOAD_TIMEOUT
    }
}

/// The connectivity probe has the shorter timeout.
pub proof fn lemma_timeouts_ordered()
    ensures
        CONNECT_TIMEOUT < DOWNLOAD_TIMEOUT,
{
}

/// How a worker begins: a candidate without an address fails at once, without
/// a request.
pub fn start(url: &Option<String>) -> (a: Action)
    ensures
        a@ == (match url {
            Some(u) => ActionView::Request(u@),
            None => ActionView::Finish(false),
        }),
{
    match url {
        Some(u) => Action::Request(u.clone()),
        None => Action::Finish(false),
    }
}

/// What follows a response. A redirect with a target is followed once: the
/// probe is sent again to the target and timed anew. Any other response
/// ends the probe: in a connectivity probe it counts as reachable whatever
/// its status; in a download probe only a status of success does, one from
/// 200 to 299. No response is a failure.
pub open spec fn after(response: ResponseView, is_connect_only: bool, redirected: bool) -> ActionView {
    match response {
        ResponseView::Failed => ActionView::Finish(false),
        ResponseView::Status { code, location } => {
            if 300 <= code < 400 && !redirected && location is Some {
                ActionView::Request(location->0)
            } else if is_connect_only {
                ActionView::Finish(true)
            } else {
                ActionView::Finish(200 <= code < 300)
            }
        },
    }
}

/// What a worker does after `response`, where `redirected` says whether it
/// has followed a redirect already.
pub fn request(response: &Response, is_connect_only: bool, redirected: bool) -> (a: Action)
    ensures
        a@ == after(response@, is_connect_only, redirected),
{
    match response {
        Response::Failed => Action::Finish(false),
        Response::Status { code, location } => {
            if 300 <= *code && *code < 400 && !redirected {
                match location {
                    Some(l) => {
                        return Action::Request(l.clone());
                    },
                    None => {},
                }
            }
            if is_connect_only {
                Action::Finish(true)
            } else {
                Action::Finish(200 <= *code && *code < 300)
            }
        },
    }
}

/// The result that a worker sends: the elapsed milliseconds of a probe that
/// reached its target, nothing for one that failed.
pub fn measurement(reached: bool, elapsed_ms: u128) -> (r: Option<u128>)
    ensures
        r == (if reached {
            Some(elapsed_ms)
        } else {
            None
        }),
{
    if reached {
        Some(elapsed_ms)
    } else {
        None
    }
}

/// How many results the caller waits for: as many as asked for, and never
/// more than there are candidates; all of them where nothing is asked.
pub fn harvest_count(candidates: usize, sender_size: Option<usize>) -> (n: usize)
    ensures
        n == (match sender_size {
            Some(k) => if k < candidates {
                k
            } else {
                candidates
            },
            None => candidates,
        }),
{
    match sender_size {
        Some(k) => if k < candidates {
            k
        } else {
            candidates
        },
        None => candidates,
    }
}

/// The results of a batch of probes: each name with its measurement.
pub type Results = Seq<(Seq<char>, Option<u128>)>;

/// The names and measurements of a list of results.
pub open spec fn results_view(v: Seq<(String, Option<u128>)>) -> Results {
    v.map_values(|r: (String, Option<u128>)| (r.0@, r.1))
}

/// The rank by which results are ordered: the measurement, and above every
/// measurement the lack of one.
pub open spec fn rank(delay: Option<u128>) -> int {
    match delay {
        Some(ms) => ms as int,
        None => u128::MAX + 1,
    }
}

/// The result at `j` of `b` may stand before the one at `k`: its rank is
/// lower, or the same and it came first in the batch.
pub open spec fn precedes(b: Results, perm: Seq<int>, j: int, k: int) -> bool {
    rank(b[j].1) < rank(b[k].1) || (rank(b[j].1) == rank(b[k].1) && perm[j] < perm[k])
}

/// The result `x` is among `b`.
pub open spec fn appears(b: Results, x: (Seq<char>, Option<u128>)) -> bool {
    exists|k: int| 0 <= k < b.len() && #[trigger] b[k] == x
}

/// `b` is `a` sorted by rank, results of equal rank in the order they had in
/// `a`: `b[k]` is `a[perm[k]]`, `a[i]` is `b[inv[i]]`, and along `b` the rank
/// never falls and, where it stays, the position in `a` rises.
pub open spec fn stable_sort_of(a: Results, b: Results, perm: Seq<int>, inv: Seq<int>) -> bool {
    &&& b.len() == a.len()
    &&& perm.len() == a.len()
    &&& inv.len() == a.len()
    &&& forall|k: int| 0 <= k < b.len() ==> 0 <= #[trigger] perm[k] < a.len() && b[k] == a[perm[k]]
    &&& forall|i: int| 0 <= i < a.len() ==> 0 <= #[trigger] inv[i] < b.len() && perm[inv[i]] == i
    &&& forall|j: int, k: int| 0 <= j < k < b.len() ==> #[trigger] precedes(b, perm, j, k)
}

/// `b` is `a` sorted by rank, stably.
pub open spec fn sorted_results(a: Results, b: Results) -> bool {
    exists|perm: Seq<int>, inv: Seq<int>| stable_sort_of(a, b, perm, inv)
}

/// In sorted results every result of the batch appears, and every result
/// without a measurement stands after every result with one.
pub proof fn lemma_unmeasured_last(a: Results, b: Results)
    requires
        sorted_results(a, b),
    ensures
        forall|i: int| 0 <= i < a.len() ==> appears(b, #[trigger] a[i]),
        forall|j: int, k: int|
            0 <= j < b.len() && 0 <= k < b.len() && (#[trigger] b[j]).1 is None && (
            #[trigger] b[k]).1 is Some ==> k < j,
{
    let (perm, inv) = choose|perm: Seq<int>, inv: Seq<int>| stable_sort_of(a, b, perm, inv);
    assert(stable_sort_of(a, b, perm, inv));
    assert forall|i: int| 0 <= i < a.len() implies appears(b, #[trigger] a[i]) by {
        let k = inv[i];
        assert(perm[k] == i);
        assert(0 <= k < b.len() && b[k] == a[i]);
    }
    assert forall|j: int, k: int|
        0 <= j < b.len() && 0 <= k < b.len() && (#[trigger] b[j]).1 is None && (
        #[trigger] b[k]).1 is Some implies k < j by {
        if j < k {
            assert(precedes(b, perm, j, k));
        }
    }
}

/// Whether a result with the measurement `x` may stand before one with `y`.
fn rank_le(x: Option<u128>, y: Option<u128>) -> (r: bool)
    ensures
        r == (rank(x) <= rank(y)),
{
    match (x, y) {
        (Some(a), Some(b)) => a <= b,
        (Some(_), None) => true,
        (None, Some(_)) => false,
        (None, None) => true,
    }
}

/// Orders the collected results: ascending by elapsed time, those without a
/// measurement after all others, and results of equal time in the order in
/// which they came in.
pub fn sort_results(results: &Vec<(String, Option<u128>)>) -> (out: Vec<(String, Option<u128>)>)
    ensures
        sorted_results(results_view(results@), results_view(out@)),
{
    let ghost a = results_view(results@);
    let mut out: Vec<(String, Option<u128>)> = Vec::new();
    let ghost mut perm: Seq<int> = Seq::empty();
    let ghost mut inv: Seq<int> = Seq::empty();
    let mut i: usize = 0;
    assert(a.take(0) =~= Seq::empty());
    while i < results.len()
        invariant
            i <= results.len(),
            a == results_view(results@),
            stable_sort_of(a.take(i as int), results_view(out@), perm, inv),
        decreases results.len() - i,
    {
        let delay = results[i].1;
        let ghost b = results_view(out@);
        let mut pos: usize = 0;
        while pos < out.len() && rank_le(out[pos].1, delay)
            invariant
                pos <= out.len(),
                b == results_view(out@),
                forall|j: int| 0 <= j < pos ==> rank(b[j].1) <= rank(delay),
            decreases out.len() - pos,
        {
            assert(b[pos as int].1 == out@[pos as int].1);
            pos = pos + 1;
        }
        proof {
            if pos < out.len() {
                assert(b[pos as int].1 == out@[pos as int].1);
            }
        }
        out.insert(pos, (results[i].0.clone(), delay));
        proof {
            let at = pos as int;
            let n = i as int;
            let x = a[n];
            let a0 = a.take(n);
            let a1 = a.take(n + 1);
            let b1 = results_view(out@);
            assert(x == (results@[n].0@, delay));
            assert(b1 =~= b.insert(at, x));
            if at < b.len() {
                assert(rank(b[at].1) > rank(delay));
            }
            let perm1 = perm.insert(at, n);
            let inv1 = Seq::new(
                (n + 1) as nat,
                |t: int|
                    if t == n {
                        at
                    } else if inv[t] >= at {
                        inv[t] + 1
                    } else {
                        inv[t]
                    },
            );
            assert forall|k: int| 0 <= k < b1.len() implies 0 <= #[trigger] perm1[k] < a1.len()
                && b1[k] == a1[perm1[k]] by {
                if k < at {
                    assert(perm1[k] == perm[k]);
                    assert(b1[k] == b[k]);
                    assert(a0[perm[k]] == a1[perm[k]]);
                } else if k == at {
                } else {
                    assert(perm1[k] == perm[k - 1]);
                    assert(b1[k] == b[k - 1]);
                    assert(a0[perm[k - 1]] == a1[perm[k - 1]]);
                }
            }
            assert forall|t: int| 0 <= t < a1.len() implies 0 <= #[trigger] inv1[t] < b1.len()
                && perm1[inv1[t]] == t by {
                if t < n {
                    let p = inv[t];
                    assert(0 <= p < b.len() && perm[p] == t);
                    if p >= at {
                        assert(inv1[t] == p + 1);
                        assert(perm1[p + 1] == perm[p]);
                    } else {
                        assert(inv1[t] == p);
                        assert(perm1[p] == perm[p]);
                    }
                } else {
                    assert(inv1[t] == at);
                    assert(perm1[at] == n);
                }
            }
            assert forall|j: int, k: int| 0 <= j < k < b1.len() implies #[trigger] precedes(
                b1,
                perm1,
                j,
                k,
            ) by {
                let j0 = if j < at {
                    j
                } else {
                    j - 1
                };
                let k0 = if k < at {
                    k
                } else {
                    k - 1
                };
                if j != at && k != at {
                    assert(b1[j] == b[j0] && b1[k] == b[k0]);
                    assert(perm1[j] == perm[j0] && perm1[k] == perm[k0]);
                    assert(precedes(b, perm, j0, k0));
                } else if k == at {
                    assert(b1[j] == b[j]);
                    assert(perm1[j] == perm[j]);
                    assert(0 <= perm[j] < n);
                    assert(perm1[k] == n);
                    assert(b1[k] == x);
                } else {
                    assert(b1[k] == b[k - 1]);
                    assert(b1[j] == x);
                    if k - 1 > at {
                        assert(precedes(b, perm, at, k - 1));
                    }
                }
            }
            assert(b1.len() == a1.len());
            assert(perm1.len() == a1.len());
            assert(inv1.len() == a1.len());
            assert(stable_sort_of(a1, b1, perm1, inv1));
            perm = perm1;
            inv = inv1;
        }
        i = i + 1;
    }
    assert(a.take(results.len() as int) =~= a);
    out
}

} // verus!
