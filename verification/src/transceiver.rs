//! The Transceiver's verified bookkeeping: the correlation map of requests
//! awaiting a reply, the link's connection states, and the reconnect backoff.

use vstd::prelude::*;

use crate::executor::ExecutorRequest;
use crate::msql::{Msql, MsqlResponse};
use crate::session::ClientMeta;
use crate::version::TxVN;

verus! {

/// Response sent from the replica back towards the session: the reply body
/// and the possibly shrunk transaction handle.
#[derive(Debug)]
pub struct Reply {
    pub msql_res: MsqlResponse,
    pub txvn_res: Option<TxVN>,
}

impl Reply {
    pub fn new(msql_res: MsqlResponse, txvn_res: Option<TxVN>) -> (r: Self)
        ensures
            r.msql_res == msql_res,
            r.txvn_res == txvn_res,
    {
        Reply { msql_res, txvn_res }
    }
}

/// One request on its way to a replica.
#[derive(Debug)]
pub struct TranceiverRequest {
    pub dbproxy_addr: String,
    pub client_meta: ClientMeta,
    pub command: Msql,
    pub txvn: Option<TxVN>,
}

impl ExecutorRequest for TranceiverRequest {
    type ReplyType = Reply;
}

/// The life of the one persistent link to a replica.
#[derive(Clone, Copy, Debug, PartialEq, Eq, Structural)]
pub enum LinkState {
    Disconnected,
    Connecting,
    Connected,
    Closing,
}

/// The reconnect delay ceiling, in milliseconds.
pub const BACKOFF_CAP_MS: u64 = 5000;

/// The first reconnect delay, in milliseconds.
pub const BACKOFF_INITIAL_MS: u64 = 100;

/// The delay before the next reconnect attempt: it starts at 100 ms and
/// doubles up to the 5 s cap.
pub fn next_backoff(cur_ms: u64) -> (r: u64)
    requires
        cur_ms == 0 || BACKOFF_INITIAL_MS <= cur_ms <= BACKOFF_CAP_MS,
    ensures
        r == (if cur_ms == 0 {
            BACKOFF_INITIAL_MS as int
        } else if 2 * cur_ms <= BACKOFF_CAP_MS {
            2 * cur_ms
        } else {
            BACKOFF_CAP_MS as int
        }),
        BACKOFF_INITIAL_MS <= r <= BACKOFF_CAP_MS,
        r >= cur_ms,
    {
    if cur_ms == 0 {
        BACKOFF_INITIAL_MS
    } else if cur_ms <= BACKOFF_CAP_MS / 2 {
        2 * cur_ms
    } else {
        BACKOFF_CAP_MS
    }
}

/// What becomes of a request submitted to the link in its current state.
#[derive(Clone, Copy, Debug, PartialEq, Eq, Structural)]
pub enum SubmitOutcome {
    /// The link is up: write the request out.
    Send,
    /// The link is down: hold the request until the link comes back.
    Queue,
    /// The queue is full, or the link is closing: fail with a retriable error.
    Backpressure,
}

/// Decide a submission: a connected link sends, a down link queues up to the
/// queue's capacity, beyond it or while closing the submission fails.
pub fn submit_decision(state: LinkState, queued: usize, capacity: usize) -> (r: SubmitOutcome)
    ensures
        r == (match state {
            LinkState::Connected => SubmitOutcome::Send,
            LinkState::Closing => SubmitOutcome::Backpressure,
            _ => if queued < capacity {
                SubmitOutcome::Queue
            } else {
                SubmitOutcome::Backpressure
            },
        }),
{
    match state {
        LinkState::Connected => SubmitOutcome::Send,
        LinkState::Closing => SubmitOutcome::Backpressure,
        _ => if queued < capacity {
            SubmitOutcome::Queue
        } else {
            SubmitOutcome::Backpressure
        },
    }
}

/// The keys under which requests are waiting.
proof fn lemma_out_dom_len<T>(s: Seq<(String, u64, T)>)
    requires
        out_unique(s),
    ensures
        Set::new(|k: (Seq<char>, u64)| out_has(s, k.0, k.1)).finite(),
        Set::new(|k: (Seq<char>, u64)| out_has(s, k.0, k.1)).len() == s.len(),
    decreases s.len(),
{
    let d = Set::new(|k: (Seq<char>, u64)| out_has(s, k.0, k.1));
    if s.len() == 0 {
        assert(d =~= Set::<(Seq<char>, u64)>::empty());
    } else {
        let head = s.drop_last();
        let last = s.last();
        assert(out_unique(head)) by {
            assert(forall|i: int| 0 <= i < head.len() ==> head[i] == s[i]);
        }
        lemma_out_dom_len(head);
        let dh = Set::new(|k: (Seq<char>, u64)| out_has(head, k.0, k.1));
        assert forall|k: (Seq<char>, u64)| #![auto] true implies (d.contains(k) <==> (dh.contains(
            k,
        ) || k == (last.0@, last.1))) by {
            if d.contains(k) {
                let i = out_index_of(s, k.0, k.1);
                if i < s.len() - 1 {
                    assert(head[i] == s[i]);
                    assert(out_has(head, k.0, k.1));
                } else {
                    assert(s[i] == last);
                }
            }
            if dh.contains(k) {
                let i = out_index_of(head, k.0, k.1);
                assert(s[i] == head[i]);
                assert(out_has(s, k.0, k.1));
            }
            if k == (last.0@, last.1) {
                assert(s[s.len() - 1] == last);
                assert(out_has(s, k.0, k.1));
            }
        }
        assert(!dh.contains((last.0@, last.1))) by {
            if out_has(head, last.0@, last.1) {
                let i = out_index_of(head, last.0@, last.1);
                assert(s[i] == head[i]);
                assert(s[s.len() - 1] == last);
            }
        }
        assert(d =~= dh.insert((last.0@, last.1)));
    }
}

spec fn out_has<T>(s: Seq<(String, u64, T)>, addr: Seq<char>, id: u64) -> bool {
    exists|i: int| 0 <= i < s.len() && (#[trigger] s[i]).0@ == addr && s[i].1 == id
}

spec fn out_index_of<T>(s: Seq<(String, u64, T)>, addr: Seq<char>, id: u64) -> int {
    choose|i: int| 0 <= i < s.len() && (#[trigger] s[i]).0@ == addr && s[i].1 == id
}

spec fn out_unique<T>(s: Seq<(String, u64, T)>) -> bool {
    forall|i: int, j: int|
        0 <= i < j < s.len() ==> !((#[trigger] s[i]).0@ == (#[trigger] s[j]).0@ && s[i].1 == s[j].1)
}

/// The requests awaiting a reply on one link, keyed by the correlation pair
/// `(client_addr, request_id)`.
#[derive(Debug)]
pub struct Outstanding<T> {
    entries: Vec<(String, u64, T)>,
}

impl<T> View for Outstanding<T> {
    type V = Map<(Seq<char>, u64), T>;

    closed spec fn view(&self) -> Map<(Seq<char>, u64), T> {
        Map::new(
            |k: (Seq<char>, u64)| out_has(self.entries@, k.0, k.1),
            |k: (Seq<char>, u64)|
                self.entries@[out_index_of(self.entries@, k.0, k.1)].2,
        )
    }
}

impl<T> Outstanding<T> {
    pub closed spec fn wf(&self) -> bool {
        out_unique(self.entries@)
    }

    pub fn new() -> (r: Self)
        ensures
            r.wf(),
            r@ =~= Map::<(Seq<char>, u64), T>::empty(),
    {
        Outstanding { entries: Vec::new() }
    }

    /// How many requests are waiting.
    pub fn len(&self) -> (r: usize)
        requires
            self.wf(),
        ensures
            r == self@.dom().len(),
    {
        proof {
            self.lemma_len();
        }
        self.entries.len()
    }

    proof fn lemma_len(&self)
        requires
            self.wf(),
        ensures
            self@.dom().len() == self.entries@.len(),
            self@.dom().finite(),
    {
        lemma_out_dom_len(self.entries@);
        assert(self@.dom() =~= Set::new(
            |k: (Seq<char>, u64)| out_has(self.entries@, k.0, k.1),
        ));
    }

    /// Record a request under its correlation key; a key already present is
    /// a collision and is refused.
    pub fn insert(&mut self, client_addr: String, request_id: u64, pending: T) -> (r: bool)
        requires
            old(self).wf(),
        ensures
            final(self).wf(),
            r == !old(self)@.dom().contains((client_addr@, request_id)),
            r ==> final(self)@ =~= old(self)@.insert((client_addr@, request_id), pending),
            !r ==> final(self)@ == old(self)@,
    {
        if self.contains_key(&client_addr, request_id) {
            return false;
        }
        let ghost prev = self.entries@;
        self.entries.push((client_addr, request_id, pending));
        proof {
            let pushed = self.entries@.last();
            assert(self.entries@ == prev.push(pushed));
            assert forall|k: (Seq<char>, u64)| #![auto] true implies (out_has(
                self.entries@,
                k.0,
                k.1,
            ) <==> (out_has(prev, k.0, k.1) || k == (pushed.0@, pushed.1))) by {
                if out_has(self.entries@, k.0, k.1) {
                    let i = out_index_of(self.entries@, k.0, k.1);
                    if i < prev.len() {
                        assert(prev[i] == self.entries@[i]);
                        assert(out_has(prev, k.0, k.1));
                    } else {
                        assert(self.entries@[i] == pushed);
                    }
                }
                if out_has(prev, k.0, k.1) {
                    let i = out_index_of(prev, k.0, k.1);
                    assert(self.entries@[i] == prev[i]);
                }
                if k == (pushed.0@, pushed.1) {
                    assert(self.entries@[prev.len() as int] == pushed);
                }
            }
            assert forall|a: int, b: int| 0 <= a < b < self.entries@.len() implies !((
            #[trigger] self.entries@[a]).0@ == (#[trigger] self.entries@[b]).0@
                && self.entries@[a].1 == self.entries@[b].1) by {
                if b == prev.len() {
                    if self.entries@[a].0@ == pushed.0@ && self.entries@[a].1 == pushed.1 {
                        assert(prev[a] == self.entries@[a]);
                        assert(out_has(prev, pushed.0@, pushed.1));
                    }
                } else {
                    assert(self.entries@[a] == prev[a] && self.entries@[b] == prev[b]);
                }
            }
            assert forall|k: (Seq<char>, u64)| out_has(self.entries@, k.0, k.1) implies
                self.entries@[out_index_of(self.entries@, k.0, k.1)].2 == (if k == (
            pushed.0@, pushed.1) {
                pushed.2
            } else {
                prev[out_index_of(prev, k.0, k.1)].2
            }) by {
                let i = out_index_of(self.entries@, k.0, k.1);
                if k == (pushed.0@, pushed.1) {
                    if i < prev.len() {
                        assert(prev[i] == self.entries@[i]);
                        assert(out_has(prev, k.0, k.1));
                    }
                    assert(self.entries@[i] == pushed);
                } else {
                    assert(i < prev.len());
                    let j = out_index_of(prev, k.0, k.1);
                    assert(self.entries@[j] == prev[j]);
                    if j != i {
                        assert(false);
                    }
                }
            }
        }
        true
    }

    /// Whether a correlation key is waiting.
    pub fn contains_key(&self, client_addr: &String, request_id: u64) -> (r: bool)
        ensures
            r == self@.dom().contains((client_addr@, request_id)),
    {
        let n = self.entries.len();
        let mut i: usize = 0;
        while i < n
            invariant
                n == self.entries@.len(),
                i <= n,
                forall|j: int|
                    0 <= j < i ==> !((#[trigger] self.entries@[j]).0@ == client_addr@
                        && self.entries@[j].1 == request_id),
            decreases n - i,
        {
            if self.entries[i].0 == *client_addr && self.entries[i].1 == request_id {
                assert(out_has(self.entries@, client_addr@, request_id));
                return true;
            }
            i += 1;
        }
        proof {
            if out_has(self.entries@, client_addr@, request_id) {
                let k = out_index_of(self.entries@, client_addr@, request_id);
                assert(false);
            }
        }
        false
    }

    /// Take every waiter out, for failing them all when the link is lost.
    pub fn drain(&mut self) -> (r: Vec<(String, u64, T)>)
        requires
            old(self).wf(),
        ensures
            final(self).wf(),
            final(self)@ =~= Map::<(Seq<char>, u64), T>::empty(),
            r@.len() == old(self).spec_count(),
            forall|i: int|
                0 <= i < r@.len() ==> old(self)@.dom().contains(
                    ((#[trigger] r@[i]).0@, r@[i].1),
                ) && old(self)@[(r@[i].0@, r@[i].1)] == r@[i].2,
    {
        let ghost s0 = self.entries@;
        let mut out: Vec<(String, u64, T)> = Vec::new();
        loop
            invariant
                out@.len() + self.entries@.len() == s0.len(),
                self.wf(),
                forall|k: int| 0 <= k < self.entries@.len() ==> self.entries@[k] == s0[k],
                forall|i: int|
                    0 <= i < out@.len() ==> (#[trigger] out@[i]) == s0[s0.len() - 1 - i],
            ensures
                self.entries@.len() == 0,
            decreases self.entries@.len(),
        {
            match self.entries.pop() {
                Some(e) => {
                    let ghost prev_out = out@;
                    out.push(e);
                    proof {
                        assert(out@.last() == e);
                        assert(forall|i: int| 0 <= i < prev_out.len() ==> out@[i] == prev_out[i]);
                        assert(s0[self.entries@.len() as int] == e);
                    }
                },
                None => {
                    break ;
                },
            }
        }
        proof {
            assert(self.entries@.len() == 0);
            assert(self@ =~= Map::<(Seq<char>, u64), T>::empty()) by {
                if exists|k: (Seq<char>, u64)| self@.dom().contains(k) {
                    let k = choose|k: (Seq<char>, u64)| self@.dom().contains(k);
                    let i = out_index_of(self.entries@, k.0, k.1);
                }
            }
            assert forall|i: int| 0 <= i < out@.len() implies Map::new(
                |k: (Seq<char>, u64)| out_has(s0, k.0, k.1),
                |k: (Seq<char>, u64)| s0[out_index_of(s0, k.0, k.1)].2,
            ).dom().contains(((#[trigger] out@[i]).0@, out@[i].1)) && Map::new(
                |k: (Seq<char>, u64)| out_has(s0, k.0, k.1),
                |k: (Seq<char>, u64)| s0[out_index_of(s0, k.0, k.1)].2,
            )[(out@[i].0@, out@[i].1)] == out@[i].2 by {
                let k = s0.len() - 1 - i;
                assert(s0[k] == out@[i]);
                assert(out_has(s0, out@[i].0@, out@[i].1));
                let j = out_index_of(s0, out@[i].0@, out@[i].1);
                assert(0 <= j < s0.len() && s0[j].0@ == out@[i].0@ && s0[j].1 == out@[i].1);
                if j != k {
                    assert(out_unique(s0));
                    assert(false);
                }
            }
            assert(s0 == old(self).entries@);
        }
        out
    }

    /// The number of requests waiting (for the contract of `drain`).
    pub closed spec fn spec_count(&self) -> nat {
        self.entries@.len()
    }

    /// Pop the waiter of one correlation key; an unknown key yields nothing
    /// (such a reply is dropped).
    pub fn take(&mut self, client_addr: &String, request_id: u64) -> (r: Option<T>)
        requires
            old(self).wf(),
        ensures
            final(self).wf(),
            match r {
                Some(t) => {
                    &&& old(self)@.dom().contains((client_addr@, request_id))
                    &&& t == old(self)@[(client_addr@, request_id)]
                    &&& final(self)@ =~= old(self)@.remove((client_addr@, request_id))
                },
                None => {
                    &&& !old(self)@.dom().contains((client_addr@, request_id))
                    &&& final(self)@ == old(self)@
                },
            },
    {
        let ghost s0 = self.entries@;
        let n = self.entries.len();
        let mut i: usize = 0;
        while i < n
            invariant
                self.entries@ == s0,
                s0 == old(self).entries@,
                out_unique(s0),
                n == s0.len(),
                i <= n,
                forall|j: int|
                    0 <= j < i ==> !((#[trigger] s0[j]).0@ == client_addr@ && s0[j].1
                        == request_id),
            decreases n - i,
        {
            if self.entries[i].0 == *client_addr && self.entries[i].1 == request_id {
                proof {
                    assert(out_has(s0, client_addr@, request_id));
                    let k = out_index_of(s0, client_addr@, request_id);
                    if k != i {
                        assert(false);
                    }
                }
                let entry = self.entries.remove(i);
                proof {
                    let s2 = self.entries@;
                    assert(s2 == s0.remove(i as int));
                    assert(forall|a: int|
                        0 <= a < s2.len() ==> #[trigger] s2[a] == (if a < i {
                            s0[a]
                        } else {
                            s0[a + 1]
                        }));
                    assert forall|a: int, b: int| 0 <= a < b < s2.len() implies !((
                    #[trigger] s2[a]).0@ == (#[trigger] s2[b]).0@ && s2[a].1 == s2[b].1) by {}
                    assert forall|k: (Seq<char>, u64)| #![auto] true implies (out_has(
                        s2,
                        k.0,
                        k.1,
                    ) <==> (out_has(s0, k.0, k.1) && k != (client_addr@, request_id))) by {
                        if out_has(s2, k.0, k.1) {
                            let a = out_index_of(s2, k.0, k.1);
                            if k == (client_addr@, request_id) {
                                assert(s2[a] == (if a < i { s0[a] } else { s0[a + 1] }));
                                assert(false);
                            }
                            let orig: int = if a < i { a } else { a + 1 };
                            assert(s0[orig].0@ == k.0 && s0[orig].1 == k.1);
                        }
                        if out_has(s0, k.0, k.1) && k != (client_addr@, request_id) {
                            let a = out_index_of(s0, k.0, k.1);
                            if a < i {
                                assert(s2[a] == s0[a]);
                            } else {
                                assert(a != i);
                                assert(s2[a - 1] == s0[a]);
                            }
                        }
                    }
                    assert forall|k: (Seq<char>, u64)| out_has(s2, k.0, k.1) implies s2[
                    out_index_of(s2, k.0, k.1)].2 == s0[out_index_of(s0, k.0, k.1)].2 by {
                        let a = out_index_of(s2, k.0, k.1);
                        let orig: int = if a < i { a } else { a + 1 };
                        assert(s2[a] == s0[orig]);
                        let b = out_index_of(s0, k.0, k.1);
                        assert(0 <= b < s0.len() && s0[b].0@ == k.0 && s0[b].1 == k.1);
                        if b != orig {
                            assert(false);
                        }
                    }
                    assert(s0 == old(self).entries@);
                    assert(Map::new(
                        |k: (Seq<char>, u64)| out_has(s0, k.0, k.1),
                        |k: (Seq<char>, u64)| s0[out_index_of(s0, k.0, k.1)].2,
                    ) =~= old(self)@);
                    assert(self@ =~= old(self)@.remove((client_addr@, request_id)));
                }
                return Some(entry.2);
            }
            i += 1;
        }
        proof {
            if out_has(s0, client_addr@, request_id) {
                let k = out_index_of(s0, client_addr@, request_id);
                assert(false);
            }
        }
        None
    }
}

} // verus!
