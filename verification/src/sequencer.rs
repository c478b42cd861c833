//! The Sequencer's version-assignment state machine: one monotone counter per
//! table, an admission gate, and a stop flag.

use vstd::prelude::*;

use crate::msql::{MsqlBeginTx, TableOpV, has_table, tableops_unique};
use crate::version::{TxTableVN, TxVN};

verus! {

/// The counter a table is at: the next version to hand out (0 for a table
/// never seen).
pub open spec fn spec_counter(m: Map<Seq<char>, u64>, t: Seq<char>) -> u64 {
    if m.dom().contains(t) {
        m[t]
    } else {
        0
    }
}

/// The counters after one admitted begin request: each touched table advances
/// by one, every other table is unchanged.
pub open spec fn counters_after(m: Map<Seq<char>, u64>, ops: Seq<TableOpV>) -> Map<Seq<char>, u64> {
    Map::new(
        |t: Seq<char>| m.dom().contains(t) || has_table(ops, t),
        |t: Seq<char>|
            if has_table(ops, t) {
                (spec_counter(m, t) + 1) as u64
            } else {
                m[t]
            },
    )
}

/// Two begin requests touching a common table, admitted one after the other,
/// receive strictly increasing — hence distinct — versions on it.
pub proof fn lemma_overlapping_assigns_distinct(
    m: Map<Seq<char>, u64>,
    ops1: Seq<TableOpV>,
    ops2: Seq<TableOpV>,
    t: Seq<char>,
)
    requires
        has_table(ops1, t),
        has_table(ops2, t),
        spec_counter(m, t) < u64::MAX,
    ensures
        // the version the first request is handed on `t` is `spec_counter(m, t)`,
        // the second's is `spec_counter(counters_after(m, ops1), t)`; they differ
        spec_counter(m, t) < spec_counter(counters_after(m, ops1), t),
{
    assert(counters_after(m, ops1).dom().contains(t));
}

spec fn ctr_unique(s: Seq<(String, u64)>) -> bool {
    forall|i: int, j: int| 0 <= i < j < s.len() ==> s[i].0@ != s[j].0@
}

spec fn ctr_has(s: Seq<(String, u64)>, t: Seq<char>) -> bool {
    exists|i: int| 0 <= i < s.len() && s[i].0@ == t
}

spec fn ctr_index_of(s: Seq<(String, u64)>, t: Seq<char>) -> int {
    choose|i: int| 0 <= i < s.len() && s[i].0@ == t
}

spec fn ctr_view(s: Seq<(String, u64)>) -> Map<Seq<char>, u64> {
    Map::new(|t: Seq<char>| ctr_has(s, t), |t: Seq<char>| s[ctr_index_of(s, t)].1)
}

/// Appending a counter with a fresh name inserts exactly its table.
proof fn lemma_ctr_push(s: Seq<(String, u64)>, r: (String, u64))
    requires
        ctr_unique(s),
        !ctr_has(s, r.0@),
    ensures
        ctr_unique(s.push(r)),
        ctr_view(s.push(r)) =~= ctr_view(s).insert(r.0@, r.1),
{
    let s2 = s.push(r);
    assert forall|a: int, b: int| 0 <= a < b < s2.len() implies s2[a].0@ != s2[b].0@ by {
        if b < s.len() {
            assert(s2[a] == s[a] && s2[b] == s[b]);
        } else {
            assert(s2[b] == r && s2[a] == s[a]);
            if s[a].0@ == r.0@ {
                assert(ctr_has(s, r.0@));
            }
        }
    }
    assert forall|t: Seq<char>| #![auto] true implies (ctr_has(s2, t) <==> (ctr_has(s, t) || t
        == r.0@)) by {
        if ctr_has(s2, t) {
            let a = ctr_index_of(s2, t);
            if a < s.len() {
                assert(s[a].0@ == t);
            } else {
                assert(s2[a] == r);
            }
        }
        if ctr_has(s, t) {
            let a = ctr_index_of(s, t);
            assert(s2[a].0@ == t);
        }
        if t == r.0@ {
            assert(s2[s.len() as int].0@ == t);
        }
    }
    assert forall|t: Seq<char>| ctr_has(s2, t) implies s2[ctr_index_of(s2, t)].1 == (if t == r.0@ {
        r.1
    } else {
        s[ctr_index_of(s, t)].1
    }) by {
        let a = ctr_index_of(s2, t);
        assert(0 <= a < s2.len() && s2[a].0@ == t);
        if t == r.0@ {
            if a < s.len() {
                assert(ctr_has(s, r.0@));
            }
            assert(s2[a] == r);
        } else {
            assert(a < s.len());
            let b = ctr_index_of(s, t);
            if b != a {
                assert(false);
            }
        }
    }
}

/// Replacing the value at a position, name kept, updates exactly that table.
proof fn lemma_ctr_set(s: Seq<(String, u64)>, i: int, v: u64)
    requires
        ctr_unique(s),
        0 <= i < s.len(),
    ensures
        ctr_unique(s.update(i, (s[i].0, v))),
        ctr_view(s.update(i, (s[i].0, v))) =~= ctr_view(s).insert(s[i].0@, v),
{
    let s2 = s.update(i, (s[i].0, v));
    assert(forall|a: int| 0 <= a < s2.len() ==> (#[trigger] s2[a]).0@ == s[a].0@);
    assert forall|t: Seq<char>| #![auto] true implies (ctr_has(s2, t) <==> ctr_has(s, t)) by {
        if ctr_has(s2, t) {
            let a = ctr_index_of(s2, t);
            assert(s[a].0@ == t);
        }
        if ctr_has(s, t) {
            let a = ctr_index_of(s, t);
            assert(s2[a].0@ == t);
        }
    }
    assert forall|t: Seq<char>| ctr_has(s2, t) implies s2[ctr_index_of(s2, t)].1 == (if t == s[i].0@ {
        v
    } else {
        s[ctr_index_of(s, t)].1
    }) by {
        let a = ctr_index_of(s2, t);
        assert(0 <= a < s2.len() && s2[a].0@ == t);
        let b = ctr_index_of(s, t);
        assert(0 <= b < s.len() && s[b].0@ == t);
        if b != a {
            assert(false);
        }
        if t == s[i].0@ && a != i {
            assert(false);
        }
    }
}

/// The Sequencer's state: the next version to hand out on each table, the
/// next transaction identifier, the admission gate and the stop flag.
#[derive(Debug)]
pub struct SequencerState {
    counters: Vec<(String, u64)>,
    next_tx_id: u64,
    is_blocked: bool,
    stop_requested: bool,
}

impl SequencerState {
    pub closed spec fn wf(&self) -> bool {
        ctr_unique(self.counters@)
    }

    /// The per-table counters.
    pub closed spec fn counters(&self) -> Map<Seq<char>, u64> {
        ctr_view(self.counters@)
    }

    pub closed spec fn spec_next_tx_id(&self) -> u64 {
        self.next_tx_id
    }

    pub closed spec fn spec_is_blocked(&self) -> bool {
        self.is_blocked
    }

    pub closed spec fn spec_stop_requested(&self) -> bool {
        self.stop_requested
    }

    pub fn new() -> (r: Self)
        ensures
            r.wf(),
            r.counters() =~= Map::<Seq<char>, u64>::empty(),
            r.spec_next_tx_id() == 1u64,
            !r.spec_is_blocked(),
            !r.spec_stop_requested(),
    {
        SequencerState { counters: Vec::new(), next_tx_id: 1, is_blocked: false, stop_requested: false }
    }

    pub fn is_blocked(&self) -> (r: bool)
        ensures
            r == self.spec_is_blocked(),
    {
        self.is_blocked
    }

    pub fn stop_requested(&self) -> (r: bool)
        ensures
            r == self.spec_stop_requested(),
    {
        self.stop_requested
    }

    /// Close or open the admission gate.
    pub fn set_blocked(&mut self, blocked: bool)
        ensures
            final(self).wf() == old(self).wf(),
            final(self).counters() == old(self).counters(),
            final(self).spec_next_tx_id() == old(self).spec_next_tx_id(),
            final(self).spec_is_blocked() == blocked,
            final(self).spec_stop_requested() == old(self).spec_stop_requested(),
    {
        self.is_blocked = blocked;
    }

    /// Stop accepting new connections; existing ones drain.
    pub fn request_stop(&mut self)
        ensures
            final(self).wf() == old(self).wf(),
            final(self).counters() == old(self).counters(),
            final(self).spec_next_tx_id() == old(self).spec_next_tx_id(),
            final(self).spec_is_blocked() == old(self).spec_is_blocked(),
            final(self).spec_stop_requested(),
    {
        self.stop_requested = true;
    }

    /// Read a table's counter and advance it, returning the version assigned.
    fn bump(&mut self, table: &String) -> (r: u64)
        requires
            old(self).wf(),
            spec_counter(old(self).counters(), table@) < u64::MAX,
        ensures
            final(self).wf(),
            r == spec_counter(old(self).counters(), table@),
            final(self).counters() =~= old(self).counters().insert(table@, (r + 1) as u64),
            final(self).spec_next_tx_id() == old(self).spec_next_tx_id(),
            final(self).spec_is_blocked() == old(self).spec_is_blocked(),
            final(self).spec_stop_requested() == old(self).spec_stop_requested(),
    {
        let n = self.counters.len();
        let mut i: usize = 0;
        while i < n
            invariant
                self.wf(),
                self.counters@ == old(self).counters@,
                self.next_tx_id == old(self).next_tx_id,
                self.is_blocked == old(self).is_blocked,
                self.stop_requested == old(self).stop_requested,
                spec_counter(old(self).counters(), table@) < u64::MAX,
                n == self.counters@.len(),
                i <= n,
                forall|j: int| 0 <= j < i ==> (#[trigger] self.counters@[j]).0@ != table@,
            decreases n - i,
        {
            if self.counters[i].0 == *table {
                let vn = self.counters[i].1;
                proof {
                    assert(ctr_has(self.counters@, table@));
                    let k = ctr_index_of(self.counters@, table@);
                    if k != i {
                        assert(false);
                    }
                    assert(vn == spec_counter(self.counters(), table@));
                    assert(self.counters() == old(self).counters());
                    assert(vn < u64::MAX);
                    lemma_ctr_set(self.counters@, i as int, (vn + 1) as u64);
                }
                let name = self.counters[i].0.clone();
                let ghost prev = self.counters@;
                self.counters.set(i, (name, vn + 1));
                proof {
                    assert(self.counters@ =~= prev.update(i as int, (prev[i as int].0, (vn + 1) as u64)))
                        by {
                        assert(self.counters@[i as int].0 == prev[i as int].0);
                    }
                }
                return vn;
            }
            i += 1;
        }
        proof {
            if ctr_has(self.counters@, table@) {
                let k = ctr_index_of(self.counters@, table@);
                assert(false);
            }
        }
        let ghost prev = self.counters@;
        self.counters.push((table.clone(), 1));
        proof {
            let pushed = self.counters@.last();
            assert(pushed.0@ == table@ && pushed.1 == 1u64);
            assert(self.counters@ == prev.push(pushed));
            lemma_ctr_push(prev, pushed);
            assert(spec_counter(ctr_view(prev), table@) == 0);
        }
        0
    }

    /// Whether another request can be admitted without exhausting a version
    /// counter or the transaction identifiers. Exhaustion is fatal: the
    /// caller must fail loudly rather than serve inconsistent versions.
    pub fn can_assign(&self) -> (r: bool)
        requires
            self.wf(),
        ensures
            r == (self.spec_next_tx_id() < u64::MAX && (forall|t: Seq<char>|
                #[trigger] spec_counter(self.counters(), t) < u64::MAX)),
    {
        if self.next_tx_id == u64::MAX {
            proof {
                assert(!(self.spec_next_tx_id() < u64::MAX));
            }
            return false;
        }
        let n = self.counters.len();
        let mut i: usize = 0;
        while i < n
            invariant
                self.wf(),
                n == self.counters@.len(),
                i <= n,
                forall|j: int| 0 <= j < i ==> (#[trigger] self.counters@[j]).1 < u64::MAX,
            decreases n - i,
        {
            if self.counters[i].1 == u64::MAX {
                proof {
                    assert(ctr_has(self.counters@, self.counters@[i as int].0@));
                    let k = ctr_index_of(self.counters@, self.counters@[i as int].0@);
                    if k != i {
                        assert(false);
                    }
                    assert(spec_counter(self.counters(), self.counters@[i as int].0@)
                        == u64::MAX);
                }
                return false;
            }
            i += 1;
        }
        proof {
            assert forall|t: Seq<char>| #[trigger] spec_counter(self.counters(), t)
                < u64::MAX by {
                if ctr_has(self.counters@, t) {
                    let k = ctr_index_of(self.counters@, t);
                    assert(self.counters@[k].1 < u64::MAX);
                }
            }
        }
        true
    }

    /// Admit one begin request: for each declared table, read the counter as
    /// the assigned version and advance it; mint a fresh transaction
    /// identifier. Version assignment is one atomic step per request, so two
    /// requests sharing a table get distinct versions.
    pub fn assign_vn(&mut self, begintx: &MsqlBeginTx) -> (r: TxVN)
        requires
            old(self).wf(),
            begintx.wf(),
            old(self).spec_next_tx_id() < u64::MAX,
            forall|t: Seq<char>|
                #[trigger] spec_counter(old(self).counters(), t) < u64::MAX,
        ensures
            final(self).wf(),
            r.wf(),
            r@.tx_name == begintx@.tx_name,
            r@.uuid == old(self).spec_next_tx_id(),
            final(self).spec_next_tx_id() == old(self).spec_next_tx_id() + 1,
            r@.txtablevns.len() == begintx@.tableops.len(),
            forall|i: int|
                0 <= i < begintx@.tableops.len() ==> (#[trigger] r@.txtablevns[i]).table
                    == begintx@.tableops[i].table && r@.txtablevns[i].op
                    == begintx@.tableops[i].op && r@.txtablevns[i].vn == spec_counter(
                    old(self).counters(),
                    begintx@.tableops[i].table,
                ),
            final(self).counters() =~= counters_after(old(self).counters(), begintx@.tableops),
            final(self).spec_is_blocked() == old(self).spec_is_blocked(),
            final(self).spec_stop_requested() == old(self).spec_stop_requested(),
    {
        let ghost ops = begintx@.tableops;
        let tableops = begintx.tableops();
        let list = tableops.get();
        let n = list.len();
        let mut entries: Vec<TxTableVN> = Vec::new();
        let mut i: usize = 0;
        while i < n
            invariant
                n == list@.len(),
                list@.map_values(|t: crate::msql::TableOp| t@) == ops,
                tableops_unique(ops),
                i <= n,
                self.wf(),
                forall|t: Seq<char>| #[trigger] spec_counter(old(self).counters(), t) < u64::MAX,
                self.counters() =~= counters_after(
                    old(self).counters(),
                    ops.subrange(0, i as int),
                ),
                self.spec_next_tx_id() == old(self).spec_next_tx_id(),
                self.spec_is_blocked() == old(self).spec_is_blocked(),
                self.spec_stop_requested() == old(self).spec_stop_requested(),
                entries@.len() == i,
                forall|j: int|
                    0 <= j < i ==> (#[trigger] entries@[j]@).table == ops[j].table && entries@[j]@.op
                        == ops[j].op && entries@[j]@.vn == spec_counter(
                        old(self).counters(),
                        ops[j].table,
                    ),
            decreases n - i,
        {
            let ghost t = ops[i as int].table;
            proof {
                assert(list@[i as int]@ == ops[i as int]);
                // the table is not among the first i, so its counter is untouched
                assert(!has_table(ops.subrange(0, i as int), t)) by {
                    if has_table(ops.subrange(0, i as int), t) {
                        let k = choose|k: int|
                            0 <= k < i && ops.subrange(0, i as int)[k].table == t;
                        assert(ops[k].table == ops[i as int].table);
                    }
                }
                assert(spec_counter(self.counters(), t) == spec_counter(old(self).counters(), t));
            }
            let vn = self.bump(list[i].table());
            entries.push(TxTableVN::new(list[i].table().as_str(), vn, list[i].op()));
            proof {
                assert(self.counters() =~= counters_after(
                    old(self).counters(),
                    ops.subrange(0, i + 1 as int),
                )) by {
                    assert forall|u: Seq<char>| #![auto] true implies (has_table(
                        ops.subrange(0, i + 1 as int),
                        u,
                    ) <==> (has_table(ops.subrange(0, i as int), u) || u == t)) by {
                        let pre = ops.subrange(0, i as int);
                        let cur = ops.subrange(0, i + 1 as int);
                        if has_table(cur, u) {
                            let k = choose|k: int| 0 <= k < cur.len() && cur[k].table == u;
                            if k < i {
                                assert(pre[k].table == u);
                            } else {
                                assert(cur[k] == ops[i as int]);
                            }
                        }
                        if has_table(pre, u) {
                            let k = choose|k: int| 0 <= k < pre.len() && pre[k].table == u;
                            assert(cur[k].table == u);
                        }
                        if u == t {
                            assert(cur[i as int].table == u);
                        }
                    }
                }
            }
            i += 1;
        }
        let uuid = self.next_tx_id;
        self.next_tx_id = uuid + 1;
        proof {
            assert(ops.subrange(0, n as int) =~= ops);
        }
        let tx_name = match begintx.tx_name() {
            Some(n2) => Some(n2.clone()),
            None => None,
        };
        let r = TxVN::assemble(tx_name, uuid, entries);
        proof {
            assert(r.wf()) by {
                assert(forall|a: int, b: int|
                    0 <= a < b < r@.txtablevns.len() ==> (#[trigger] r@.txtablevns[a]).table
                        != (#[trigger] r@.txtablevns[b]).table);
            }
        }
        r
    }
}

} // verus!
