//! A replica's per-table version bookkeeping and the release protocol: a
//! table's counter advances past every version that has been released, one
//! release per transaction and table (duplicates are ignored).

use vstd::prelude::*;

use crate::msql::{RWOperation, TableOps};
use crate::version::{DbTableVN, DbVNReleaseRequest, TxTableVN, TxTableVNV};

verus! {

/// One recorded release: which transaction gave up which version.
#[derive(Clone, Copy, Debug, PartialEq, Eq, Structural)]
pub struct ReleaseMark {
    pub tx: u64,
    pub vn: u64,
}

/// Mathematical value of one table's record: the next version to serve and
/// the set of releases seen so far.
pub struct TableModelV {
    pub next: u64,
    pub marks: Set<ReleaseMark>,
}

/// Some release of version `v` has been seen.
pub open spec fn marked(marks: Set<ReleaseMark>, v: int) -> bool {
    exists|mk: ReleaseMark| marks.contains(mk) && mk.vn == v
}

/// Transaction `tx` has already released this table.
pub open spec fn released_by(marks: Set<ReleaseMark>, tx: u64) -> bool {
    exists|mk: ReleaseMark| marks.contains(mk) && mk.tx == tx
}

/// The table record a model holds for `t`; an untouched table is at version 0
/// with no releases.
pub open spec fn tbl(m: Map<Seq<char>, TableModelV>, t: Seq<char>) -> TableModelV {
    if m.dom().contains(t) {
        m[t]
    } else {
        TableModelV { next: 0, marks: Set::empty() }
    }
}

/// The version a replica model currently serves on table `t`.
pub open spec fn spec_get(m: Map<Seq<char>, TableModelV>, t: Seq<char>) -> u64 {
    tbl(m, t).next
}

/// Advance a counter past consecutively released versions, with enough fuel
/// to pass every recorded release.
pub open spec fn advance_fuel(next: int, marks: Set<ReleaseMark>, fuel: nat) -> int
    decreases fuel,
{
    if fuel == 0 {
        next
    } else if marked(marks, next) {
        advance_fuel(next + 1, marks, (fuel - 1) as nat)
    } else {
        next
    }
}

/// The next version a table serves once `marks` have been released: the
/// smallest unreleased version at or above `next`.
pub open spec fn spec_advance(next: int, marks: Set<ReleaseMark>) -> int {
    advance_fuel(next, marks, marks.len())
}

/// Release one held version: ignored when the transaction already released
/// this table, else recorded, and the counter advanced past every
/// consecutively released version.
pub open spec fn spec_release_entry(
    m: Map<Seq<char>, TableModelV>,
    tx: u64,
    e: TxTableVNV,
) -> Map<Seq<char>, TableModelV> {
    let tm = tbl(m, e.table);
    if released_by(tm.marks, tx) {
        m
    } else {
        let marks2 = tm.marks.insert(ReleaseMark { tx, vn: e.vn });
        m.insert(
            e.table,
            TableModelV { next: spec_advance(tm.next as int, marks2) as u64, marks: marks2 },
        )
    }
}

/// Release every version a transaction held, entry by entry.
pub open spec fn spec_release(
    m: Map<Seq<char>, TableModelV>,
    tx: u64,
    entries: Seq<TxTableVNV>,
) -> Map<Seq<char>, TableModelV>
    decreases entries.len(),
{
    if entries.len() == 0 {
        m
    } else {
        spec_release(spec_release_entry(m, tx, entries[0]), tx, entries.subrange(1, entries.len() as int))
    }
}

/// A replica model is well formed when every table's release set is finite
/// and no released version saturates the counter.
pub open spec fn model_wf(m: Map<Seq<char>, TableModelV>) -> bool {
    forall|t: Seq<char>|
        m.dom().contains(t) ==> (#[trigger] m[t]).marks.finite() && (forall|mk: ReleaseMark|
            m[t].marks.contains(mk) ==> (#[trigger] mk.vn) < u64::MAX)
}

proof fn lemma_advance_fuel_monotone(next: int, marks: Set<ReleaseMark>, fuel: nat)
    ensures
        advance_fuel(next, marks, fuel) >= next,
    decreases fuel,
{
    if fuel > 0 && marked(marks, next) {
        lemma_advance_fuel_monotone(next + 1, marks, (fuel - 1) as nat);
    }
}

proof fn lemma_advance_fuel_bound(next: int, marks: Set<ReleaseMark>, fuel: nat, bound: int)
    requires
        next <= bound,
        forall|mk: ReleaseMark| marks.contains(mk) ==> (#[trigger] mk.vn) < bound,
    ensures
        advance_fuel(next, marks, fuel) <= bound,
    decreases fuel,
{
    if fuel > 0 && marked(marks, next) {
        let mk = choose|mk: ReleaseMark| marks.contains(mk) && mk.vn == next;
        assert(next < bound);
        lemma_advance_fuel_bound(next + 1, marks, (fuel - 1) as nat, bound);
    }
}

proof fn lemma_advance_fuel_props(next: int, marks: Set<ReleaseMark>, fuel: nat)
    requires
        marks.finite(),
        fuel >= marks.filter(|mk: ReleaseMark| mk.vn >= next).len(),
    ensures
        !marked(marks, advance_fuel(next, marks, fuel)),
        forall|w: int| next <= w < advance_fuel(next, marks, fuel) ==> marked(marks, w),
    decreases fuel,
{
    marks.lemma_len_filter(|mk: ReleaseMark| mk.vn >= next);
    if marked(marks, next) {
        let mk0 = choose|mk: ReleaseMark| marks.contains(mk) && mk.vn == next;
        let above = marks.filter(|mk: ReleaseMark| mk.vn >= next);
        let above1 = marks.filter(|mk: ReleaseMark| mk.vn >= next + 1);
        assert(above.contains(mk0));
        assert(above1.subset_of(above.remove(mk0)));
        marks.lemma_len_filter(|mk: ReleaseMark| mk.vn >= next + 1);
        vstd::set_lib::lemma_len_subset(above1, above.remove(mk0));
        assert(above.remove(mk0).len() == above.len() - 1);
        assert(fuel >= 1);
        lemma_advance_fuel_props(next + 1, marks, (fuel - 1) as nat);
        lemma_advance_fuel_monotone(next + 1, marks, (fuel - 1) as nat);
    }
}

/// The value `spec_advance` gives is the one the release loop computes: the
/// smallest unreleased version at or above `next`.
proof fn lemma_advance_characterize(next: int, marks: Set<ReleaseMark>, r: int)
    requires
        marks.finite(),
        r >= next,
        !marked(marks, r),
        forall|w: int| next <= w < r ==> marked(marks, w),
    ensures
        r == spec_advance(next, marks),
{
    marks.lemma_len_filter(|mk: ReleaseMark| mk.vn >= next);
    vstd::set_lib::lemma_len_subset(marks.filter(|mk: ReleaseMark| mk.vn >= next), marks);
    lemma_advance_fuel_props(next, marks, marks.len());
    lemma_advance_fuel_monotone(next, marks, marks.len());
    let s = spec_advance(next, marks);
    if r < s {
        assert(marked(marks, r));
    } else if s < r {
        assert(marked(marks, s));
    }
}

proof fn lemma_release_entry_effect(m: Map<Seq<char>, TableModelV>, tx: u64, e: TxTableVNV)
    requires
        model_wf(m),
        e.vn < u64::MAX,
    ensures
        model_wf(spec_release_entry(m, tx, e)),
        forall|t: Seq<char>|
            #[trigger] spec_get(spec_release_entry(m, tx, e), t) >= spec_get(m, t),
        forall|t: Seq<char>|
            (#[trigger] tbl(m, t)).marks.subset_of(tbl(spec_release_entry(m, tx, e), t).marks),
        released_by(tbl(spec_release_entry(m, tx, e), e.table).marks, tx),
{
    let tm = tbl(m, e.table);
    if !released_by(tm.marks, tx) {
        let mk = ReleaseMark { tx, vn: e.vn };
        let marks2 = tm.marks.insert(mk);
        assert(marks2.finite());
        assert(forall|mk2: ReleaseMark| marks2.contains(mk2) ==> (#[trigger] mk2.vn) < u64::MAX);
        lemma_advance_fuel_monotone(tm.next as int, marks2, marks2.len());
        lemma_advance_fuel_bound(tm.next as int, marks2, marks2.len(), u64::MAX as int);
        assert(marks2.contains(mk));
    }
}

proof fn lemma_release_effect(m: Map<Seq<char>, TableModelV>, tx: u64, entries: Seq<TxTableVNV>)
    requires
        model_wf(m),
        forall|i: int| 0 <= i < entries.len() ==> (#[trigger] entries[i]).vn < u64::MAX,
    ensures
        model_wf(spec_release(m, tx, entries)),
        forall|t: Seq<char>| #[trigger] spec_get(spec_release(m, tx, entries), t) >= spec_get(m, t),
        forall|t: Seq<char>|
            (#[trigger] tbl(m, t)).marks.subset_of(tbl(spec_release(m, tx, entries), t).marks),
        forall|i: int|
            0 <= i < entries.len() ==> released_by(
                tbl(spec_release(m, tx, entries), (#[trigger] entries[i]).table).marks,
                tx,
            ),
    decreases entries.len(),
{
    if entries.len() > 0 {
        let m1 = spec_release_entry(m, tx, entries[0]);
        let rest = entries.subrange(1, entries.len() as int);
        lemma_release_entry_effect(m, tx, entries[0]);
        lemma_release_effect(m1, tx, rest);
        assert forall|i: int| 0 <= i < entries.len() implies released_by(
            tbl(spec_release(m, tx, entries), (#[trigger] entries[i]).table).marks,
            tx,
        ) by {
            if i == 0 {
                let mk = choose|mk: ReleaseMark|
                    tbl(m1, entries[0].table).marks.contains(mk) && mk.tx == tx;
                assert(tbl(spec_release(m1, tx, rest), entries[0].table).marks.contains(mk));
            } else {
                assert(rest[i - 1] == entries[i]);
            }
        }
    }
}

proof fn lemma_release_skips(m: Map<Seq<char>, TableModelV>, tx: u64, entries: Seq<TxTableVNV>)
    requires
        forall|i: int|
            0 <= i < entries.len() ==> released_by(
                tbl(m, (#[trigger] entries[i]).table).marks,
                tx,
            ),
    ensures
        spec_release(m, tx, entries) == m,
    decreases entries.len(),
{
    if entries.len() > 0 {
        assert(released_by(tbl(m, entries[0].table).marks, tx));
        assert(spec_release_entry(m, tx, entries[0]) == m);
        let rest = entries.subrange(1, entries.len() as int);
        assert(forall|i: int|
            0 <= i < rest.len() ==> released_by(tbl(m, (#[trigger] rest[i]).table).marks, tx))
            by {
            assert(forall|i: int| 0 <= i < rest.len() ==> rest[i] == entries[i + 1]);
        }
        lemma_release_skips(m, tx, rest);
    }
}

/// Once a transaction's versions are released on a replica, every table of
/// its held set records that transaction as released: nothing of the
/// transaction remains held there.
pub proof fn lemma_release_clears_holding(
    m: Map<Seq<char>, TableModelV>,
    tx: u64,
    entries: Seq<TxTableVNV>,
)
    requires
        model_wf(m),
        forall|i: int| 0 <= i < entries.len() ==> (#[trigger] entries[i]).vn < u64::MAX,
    ensures
        forall|i: int|
            0 <= i < entries.len() ==> released_by(
                tbl(spec_release(m, tx, entries), (#[trigger] entries[i]).table).marks,
                tx,
            ),
{
    lemma_release_effect(m, tx, entries);
}

/// Releasing the same held set twice advances a replica exactly as far as
/// releasing it once: the second release is ignored in full.
pub proof fn lemma_release_idempotent(
    m: Map<Seq<char>, TableModelV>,
    tx: u64,
    entries: Seq<TxTableVNV>,
)
    requires
        model_wf(m),
        forall|i: int| 0 <= i < entries.len() ==> (#[trigger] entries[i]).vn < u64::MAX,
    ensures
        spec_release(spec_release(m, tx, entries), tx, entries) == spec_release(m, tx, entries),
{
    lemma_release_effect(m, tx, entries);
    lemma_release_skips(spec_release(m, tx, entries), tx, entries);
}

/// A release never lowers any table's version: each replica's counters are
/// monotonically non-decreasing over every sequence of releases.
pub proof fn lemma_release_monotone(
    m: Map<Seq<char>, TableModelV>,
    tx: u64,
    entries: Seq<TxTableVNV>,
)
    requires
        model_wf(m),
        forall|i: int| 0 <= i < entries.len() ==> (#[trigger] entries[i]).vn < u64::MAX,
    ensures
        model_wf(spec_release(m, tx, entries)),
        forall|t: Seq<char>| #[trigger] spec_get(spec_release(m, tx, entries), t) >= spec_get(m, t),
{
    lemma_release_effect(m, tx, entries);
}

/// One table's bookkeeping on a replica: the next version it will serve and
/// every release recorded so far.
#[derive(Debug)]
struct TableRecord {
    table: String,
    next_vn: u64,
    marks: Vec<ReleaseMark>,
}

impl TableRecord {
    spec fn model(&self) -> TableModelV {
        TableModelV { next: self.next_vn, marks: self.marks@.to_set() }
    }
}

spec fn rec_has(s: Seq<TableRecord>, t: Seq<char>) -> bool {
    exists|i: int| 0 <= i < s.len() && s[i].table@ == t
}

spec fn rec_index_of(s: Seq<TableRecord>, t: Seq<char>) -> int {
    choose|i: int| 0 <= i < s.len() && s[i].table@ == t
}

spec fn recs_unique(s: Seq<TableRecord>) -> bool {
    forall|i: int, j: int| 0 <= i < j < s.len() ==> s[i].table@ != s[j].table@
}

spec fn recs_bounded(s: Seq<TableRecord>) -> bool {
    forall|i: int, k: int|
        0 <= i < s.len() && 0 <= k < s[i].marks@.len() ==> (#[trigger] s[i].marks@[k]).vn
            < u64::MAX
}

spec fn seq_view(s: Seq<TableRecord>) -> Map<Seq<char>, TableModelV> {
    Map::new(|t: Seq<char>| rec_has(s, t), |t: Seq<char>| s[rec_index_of(s, t)].model())
}

/// A replica's per-table version counters, advanced only by releases.
#[derive(Debug)]
pub struct DbVN {
    tables: Vec<TableRecord>,
}

impl View for DbVN {
    type V = Map<Seq<char>, TableModelV>;

    closed spec fn view(&self) -> Map<Seq<char>, TableModelV> {
        seq_view(self.tables@)
    }
}

/// With unique names, the view looks a record up by its position.
proof fn lemma_view_index(s: Seq<TableRecord>, i: int)
    requires
        recs_unique(s),
        0 <= i < s.len(),
    ensures
        seq_view(s).dom().contains(s[i].table@),
        seq_view(s)[s[i].table@] == s[i].model(),
{
    assert(rec_has(s, s[i].table@));
    let k = rec_index_of(s, s[i].table@);
    assert(0 <= k < s.len() && s[k].table@ == s[i].table@);
    if k != i {
        assert(false);
    }
}

/// Removing a record removes exactly its table from the view.
proof fn lemma_view_remove(s: Seq<TableRecord>, i: int)
    requires
        recs_unique(s),
        0 <= i < s.len(),
    ensures
        recs_unique(s.remove(i)),
        seq_view(s.remove(i)) =~= seq_view(s).remove(s[i].table@),
        !rec_has(s.remove(i), s[i].table@),
{
    let s2 = s.remove(i);
    assert forall|a: int, b: int| 0 <= a < b < s2.len() implies s2[a].table@ != s2[b].table@ by {
        assert(s2[a] == (if a < i { s[a] } else { s[a + 1] }));
        assert(s2[b] == (if b < i { s[b] } else { s[b + 1] }));
    }
    assert forall|t: Seq<char>| #![auto] true implies (rec_has(s2, t) <==> (rec_has(s, t) && t
        != s[i].table@)) by {
        if rec_has(s2, t) {
            let a = rec_index_of(s2, t);
            assert(s2[a] == (if a < i { s[a] } else { s[a + 1] }));
            if t == s[i].table@ {
                assert(false);
            }
        }
        if rec_has(s, t) && t != s[i].table@ {
            let a = rec_index_of(s, t);
            assert(0 <= a < s.len() && s[a].table@ == t);
            if a < i {
                assert(s2[a] == s[a]);
            } else {
                assert(a > i);
                assert(s2[a - 1] == s[a]);
            }
        }
    }
    assert forall|t: Seq<char>| rec_has(s2, t) implies s2[rec_index_of(s2, t)].model() == s[
        rec_index_of(s, t)].model() by {
        let a = rec_index_of(s2, t);
        assert(0 <= a < s2.len() && s2[a].table@ == t);
        assert(s2[a] == (if a < i { s[a] } else { s[a + 1] }));
        let b = rec_index_of(s, t);
        let orig: int = if a < i { a } else { a + 1 };
        assert(s[orig].table@ == t);
        assert(0 <= b < s.len() && s[b].table@ == t);
        if b != orig {
            assert(false);
        }
    }
}

/// Appending a record with a fresh name inserts exactly its table.
proof fn lemma_view_push(s: Seq<TableRecord>, r: TableRecord)
    requires
        recs_unique(s),
        !rec_has(s, r.table@),
    ensures
        recs_unique(s.push(r)),
        seq_view(s.push(r)) =~= seq_view(s).insert(r.table@, r.model()),
{
    let s2 = s.push(r);
    assert forall|a: int, b: int| 0 <= a < b < s2.len() implies s2[a].table@ != s2[b].table@ by {
        if b < s.len() {
            assert(s2[a] == s[a] && s2[b] == s[b]);
        } else {
            assert(s2[b] == r && s2[a] == s[a]);
            if s[a].table@ == r.table@ {
                assert(rec_has(s, r.table@));
            }
        }
    }
    assert forall|t: Seq<char>| #![auto] true implies (rec_has(s2, t) <==> (rec_has(s, t) || t
        == r.table@)) by {
        if rec_has(s2, t) {
            let a = rec_index_of(s2, t);
            if a < s.len() {
                assert(s[a].table@ == t);
            } else {
                assert(s2[a] == r);
            }
        }
        if rec_has(s, t) {
            let a = rec_index_of(s, t);
            assert(s2[a].table@ == t);
        }
        if t == r.table@ {
            assert(s2[s.len() as int].table@ == t);
        }
    }
    assert forall|t: Seq<char>| rec_has(s2, t) implies s2[rec_index_of(s2, t)].model() == (if t
        == r.table@ { r.model() } else { s[rec_index_of(s, t)].model() }) by {
        let a = rec_index_of(s2, t);
        assert(0 <= a < s2.len() && s2[a].table@ == t);
        if t == r.table@ {
            if a < s.len() {
                assert(rec_has(s, r.table@));
            }
            assert(s2[a] == r);
        } else {
            assert(a < s.len());
            let b = rec_index_of(s, t);
            if b != a {
                assert(false);
            }
        }
    }
}

/// Every held version the query needs is ready on this replica: a read needs
/// the table's counter to have reached its version, a write needs it exactly.
pub open spec fn spec_can_execute(m: Map<Seq<char>, TableModelV>, entries: Seq<TxTableVNV>) -> bool {
    forall|i: int|
        0 <= i < entries.len() ==> match (#[trigger] entries[i]).op {
            RWOperation::R => spec_get(m, entries[i].table) >= entries[i].vn,
            RWOperation::W => spec_get(m, entries[i].table) == entries[i].vn,
        }
}

impl Default for DbVN {
    /// A fresh replica record: every table at version 0.
    fn default() -> (r: Self)
        ensures
            r@ =~= Map::<Seq<char>, TableModelV>::empty(),
            r.wf(),
    {
        DbVN { tables: Vec::new() }
    }
}

impl DbVN {
    /// Table names unique, and no recorded release saturates the counter.
    pub closed spec fn wf(&self) -> bool {
        recs_unique(self.tables@) && recs_bounded(self.tables@)
    }

    /// A well-formed replica record is a well-formed model.
    pub proof fn lemma_wf_model(&self)
        requires
            self.wf(),
        ensures
            model_wf(self@),
    {
        assert forall|t: Seq<char>| self@.dom().contains(t) implies (#[trigger] self@[t]).marks.finite()
            && (forall|mk: ReleaseMark| self@[t].marks.contains(mk) ==> (#[trigger] mk.vn)
            < u64::MAX) by {
            let i = rec_index_of(self.tables@, t);
            assert(0 <= i < self.tables@.len() && self.tables@[i].table@ == t);
            assert(self@[t] == self.tables@[i].model());
            assert forall|mk: ReleaseMark| self@[t].marks.contains(mk) implies (#[trigger] mk.vn)
                < u64::MAX by {
                assert(self.tables@[i].marks@.contains(mk));
                let k = choose|k: int|
                    0 <= k < self.tables@[i].marks@.len() && self.tables@[i].marks@[k] == mk;
                assert(self.tables@[i].marks@[k].vn < u64::MAX);
            }
        }
    }

    /// The position of the record for `table`, if one exists.
    fn find_index(&self, table: &String) -> (r: Option<usize>)
        ensures
            match r {
                Some(i) => i < self.tables@.len() && self.tables@[i as int].table@ == table@,
                None => !rec_has(self.tables@, table@),
            },
    {
        let n = self.tables.len();
        let mut i: usize = 0;
        while i < n
            invariant
                n == self.tables@.len(),
                i <= n,
                forall|j: int| 0 <= j < i ==> self.tables@[j].table@ != table@,
            decreases n - i,
        {
            if self.tables[i].table == *table {
                return Some(i);
            }
            i += 1;
        }
        None
    }

    /// The version this replica currently serves on `table` (0 when the
    /// table was never touched).
    pub fn get_version(&self, table: &String) -> (r: u64)
        requires
            self.wf(),
        ensures
            r == spec_get(self@, table@),
    {
        match self.find_index(table) {
            Some(i) => {
                proof {
                    lemma_view_index(self.tables@, i as int);
                }
                self.tables[i].next_vn
            },
            None => 0,
        }
    }

    /// Whether every version the query holds is ready here.
    pub fn can_execute_query(&self, txtablevns: &Vec<TxTableVN>) -> (r: bool)
        requires
            self.wf(),
        ensures
            r == spec_can_execute(self@, txtablevns@.map_values(|e: TxTableVN| e@)),
    {
        let ghost entries = txtablevns@.map_values(|e: TxTableVN| e@);
        let n = txtablevns.len();
        let mut i: usize = 0;
        while i < n
            invariant
                n == txtablevns@.len(),
                entries == txtablevns@.map_values(|e: TxTableVN| e@),
                i <= n,
                self.wf(),
                forall|j: int|
                    0 <= j < i ==> match (#[trigger] entries[j]).op {
                        RWOperation::R => spec_get(self@, entries[j].table) >= entries[j].vn,
                        RWOperation::W => spec_get(self@, entries[j].table) == entries[j].vn,
                    },
            decreases n - i,
        {
            let e = &txtablevns[i];
            let cur = self.get_version(e.table());
            let ok = match e.op() {
                RWOperation::R => cur >= e.vn(),
                RWOperation::W => cur == e.vn(),
            };
            assert(entries[i as int] == e@);
            if !ok {
                return false;
            }
            i += 1;
        }
        true
    }

    /// The versions this replica serves on each table of a statement, in
    /// statement order.
    pub fn get_from_tableops(&self, tableops: &TableOps) -> (r: Vec<DbTableVN>)
        requires
            self.wf(),
        ensures
            r@.len() == tableops@.len(),
            forall|i: int|
                0 <= i < tableops@.len() ==> (#[trigger] r@[i])@.table == tableops@[i].table
                    && r@[i]@.vn == spec_get(self@, tableops@[i].table),
    {
        let ops = tableops.get();
        let n = ops.len();
        let mut out: Vec<DbTableVN> = Vec::new();
        let mut i: usize = 0;
        while i < n
            invariant
                n == ops@.len(),
                ops@.map_values(|t: crate::msql::TableOp| t@) == tableops@,
                i <= n,
                self.wf(),
                out@.len() == i,
                forall|j: int|
                    0 <= j < i ==> (#[trigger] out@[j])@.table == tableops@[j].table && out@[j]@.vn
                        == spec_get(self@, tableops@[j].table),
            decreases n - i,
        {
            assert(ops@[i as int]@ == tableops@[i as int]);
            let vn = self.get_version(ops[i].table());
            out.push(DbTableVN::new(ops[i].table().as_str(), vn));
            i += 1;
        }
        out
    }

    /// The sum of every table's current version, for observation only.
    pub closed spec fn spec_version_sum(&self) -> int {
        sum_next(self.tables@)
    }

    pub fn get_version_sum(&self) -> (r: u128)
        ensures
            r == self.spec_version_sum(),
    {
        let n = self.tables.len();
        let mut sum: u128 = 0;
        let mut i: usize = 0;
        while i < n
            invariant
                n == self.tables@.len(),
                i <= n,
                sum == sum_next(self.tables@.take(i as int)),
                sum <= i * (u64::MAX as int),
            decreases n - i,
        {
            proof {
                assert(self.tables@.take(i + 1 as int).drop_last() =~= self.tables@.take(i as int));
                assert(self.tables@.take(i + 1 as int).last() == self.tables@[i as int]);
                assert((i + 1) * (u64::MAX as int) <= 0x10000000000000000 * (u64::MAX as int)
                    && i * (u64::MAX as int) + u64::MAX <= (i + 1) * (u64::MAX as int)
                    && 0x10000000000000000 * (u64::MAX as int) < u128::MAX) by (nonlinear_arith)
                    requires
                        0 <= i < 0x10000000000000000,
                ;
            }
            sum = sum + self.tables[i].next_vn as u128;
            i += 1;
        }
        proof {
            assert(self.tables@.take(n as int) =~= self.tables@);
        }
        sum
    }
}

/// Whether some recorded release of this record is by transaction `tx`.
fn marks_contain_tx(marks: &Vec<ReleaseMark>, tx: u64) -> (r: bool)
    ensures
        r == released_by(marks@.to_set(), tx),
{
    let n = marks.len();
    let mut i: usize = 0;
    while i < n
        invariant
            n == marks@.len(),
            i <= n,
            forall|j: int| 0 <= j < i ==> (#[trigger] marks@[j]).tx != tx,
        decreases n - i,
    {
        if marks[i].tx == tx {
            assert(marks@.to_set().contains(marks@[i as int]));
            return true;
        }
        i += 1;
    }
    proof {
        if released_by(marks@.to_set(), tx) {
            let mk = choose|mk: ReleaseMark| marks@.to_set().contains(mk) && mk.tx == tx;
            let j = choose|j: int| 0 <= j < marks@.len() && marks@[j] == mk;
            assert(marks@[j].tx == tx);
        }
    }
    false
}

/// Whether version `v` has been released on this record.
fn marks_contain_vn(marks: &Vec<ReleaseMark>, v: u64) -> (r: bool)
    ensures
        r == marked(marks@.to_set(), v as int),
{
    let n = marks.len();
    let mut i: usize = 0;
    while i < n
        invariant
            n == marks@.len(),
            i <= n,
            forall|j: int| 0 <= j < i ==> (#[trigger] marks@[j]).vn != v,
        decreases n - i,
    {
        if marks[i].vn == v {
            assert(marks@.to_set().contains(marks@[i as int]));
            return true;
        }
        i += 1;
    }
    proof {
        if marked(marks@.to_set(), v as int) {
            let mk = choose|mk: ReleaseMark| marks@.to_set().contains(mk) && mk.vn == v as int;
            let j = choose|j: int| 0 <= j < marks@.len() && marks@[j] == mk;
            assert(marks@[j].vn == v);
        }
    }
    false
}

impl DbVN {
    /// Apply one entry of a release request.
    fn release_entry(&mut self, tx: u64, e: &TxTableVN)
        requires
            old(self).wf(),
            e@.vn < u64::MAX,
        ensures
            final(self).wf(),
            final(self)@ == spec_release_entry(old(self)@, tx, e@),
    {
        let ghost s0 = self.tables@;
        let ghost t = e@.table;
        let mut rec: TableRecord = match self.find_index(e.table()) {
            Some(i) => {
                proof {
                    lemma_view_index(s0, i as int);
                    lemma_view_remove(s0, i as int);
                }
                self.tables.remove(i)
            },
            None => TableRecord { table: e.table().clone(), next_vn: 0, marks: Vec::new() },
        };
        proof {
            // In both cases: the remaining records lack `t`, stay unique and
            // bounded, their view is `old@` without `t`, and `rec` models the
            // table record the old view held for `t`.
            assert(recs_unique(self.tables@));
            assert(recs_bounded(self.tables@)) by {
                assert(forall|a: int|
                    0 <= a < self.tables@.len() ==> #[trigger] self.tables@[a] == s0[a] || (a + 1
                        < s0.len() + 1 && self.tables@[a] == s0[a + 1]));
            }
            assert(!rec_has(self.tables@, t));
            assert(seq_view(self.tables@) =~= old(self)@.remove(t));
            assert(rec.model() == tbl(old(self)@, t)) by {
                if rec_has(s0, t) {
                } else {
                    assert(rec.marks@.to_set() =~= Set::<ReleaseMark>::empty());
                }
            }
            assert(rec.table@ == t);
            assert(forall|k: int|
                0 <= k < rec.marks@.len() ==> (#[trigger] rec.marks@[k]).vn < u64::MAX);
        }
        if marks_contain_tx(&rec.marks, tx) {
            // This transaction already released this table: ignore.
            let ghost remaining = self.tables@;
            self.tables.push(rec);
            proof {
                lemma_view_push(remaining, rec);
                assert(rec_has(s0, t)) by {
                    if !rec_has(s0, t) {
                        assert(rec.marks@.to_set() =~= Set::<ReleaseMark>::empty());
                        assert(!released_by(rec.marks@.to_set(), tx));
                    }
                }
                assert(old(self)@.dom().contains(t));
                assert(old(self)@[t] == rec.model());
                assert(self@ =~= old(self)@);
                assert(released_by(tbl(old(self)@, t).marks, tx));
                assert(recs_bounded(self.tables@)) by {
                    assert(forall|a: int|
                        0 <= a < remaining.len() ==> self.tables@[a] == remaining[a]);
                    assert(self.tables@[remaining.len() as int] == rec);
                }
            }
            return ;
        }
        let ghost prev_marks = rec.marks@;
        rec.marks.push(ReleaseMark { tx, vn: e.vn() });
        let ghost marks2 = rec.marks@.to_set();
        proof {
            assert(rec.marks@ == prev_marks.push(ReleaseMark { tx, vn: e@.vn }));
            assert(marks2 =~= tbl(old(self)@, t).marks.insert(ReleaseMark { tx, vn: e@.vn })) by {
                assert(tbl(old(self)@, t).marks == prev_marks.to_set());
                assert forall|mk: ReleaseMark| #![auto] true implies (marks2.contains(mk) <==> (
                prev_marks.to_set().contains(mk) || mk == (ReleaseMark { tx, vn: e@.vn }))) by {
                    if marks2.contains(mk) {
                        let j = choose|j: int| 0 <= j < rec.marks@.len() && rec.marks@[j] == mk;
                        if j < prev_marks.len() {
                            assert(prev_marks[j] == mk);
                        }
                    }
                    if prev_marks.to_set().contains(mk) {
                        let j = choose|j: int| 0 <= j < prev_marks.len() && prev_marks[j] == mk;
                        assert(rec.marks@[j] == mk);
                    }
                    if mk == (ReleaseMark { tx, vn: e@.vn }) {
                        assert(rec.marks@[prev_marks.len() as int] == mk);
                    }
                }
            }
            assert(forall|k: int|
                0 <= k < rec.marks@.len() ==> (#[trigger] rec.marks@[k]).vn < u64::MAX);
            assert(marks2.finite());
            assert(forall|mk: ReleaseMark| marks2.contains(mk) ==> (#[trigger] mk.vn) < u64::MAX)
                by {
                assert forall|mk: ReleaseMark| marks2.contains(mk) implies (#[trigger] mk.vn)
                    < u64::MAX by {
                    let j = choose|j: int| 0 <= j < rec.marks@.len() && rec.marks@[j] == mk;
                }
            }
        }
        let ghost next0 = rec.next_vn;
        let mut next: u64 = rec.next_vn;
        while marks_contain_vn(&rec.marks, next)
            invariant
                marks2 == rec.marks@.to_set(),
                forall|mk: ReleaseMark| marks2.contains(mk) ==> (#[trigger] mk.vn) < u64::MAX,
                next0 <= next,
                forall|w: int| next0 <= w < next ==> marked(marks2, w),
            decreases u64::MAX - next,
        {
            proof {
                let mk = choose|mk: ReleaseMark| marks2.contains(mk) && mk.vn == next as int;
                assert(next < u64::MAX);
            }
            next = next + 1;
        }
        proof {
            lemma_advance_characterize(next0 as int, marks2, next as int);
        }
        rec.next_vn = next;
        let ghost remaining = self.tables@;
        self.tables.push(rec);
        proof {
            lemma_view_push(remaining, rec);
            assert(rec.model() == (TableModelV { next: next, marks: marks2 }));
            assert(self@ =~= spec_release_entry(old(self)@, tx, e@)) by {
                assert(self@ =~= old(self)@.remove(t).insert(t, rec.model()));
                assert(spec_release_entry(old(self)@, tx, e@) == old(self)@.insert(
                    t,
                    TableModelV {
                        next: spec_advance(next0 as int, marks2) as u64,
                        marks: marks2,
                    },
                ));
            }
            assert(recs_bounded(self.tables@)) by {
                assert(forall|a: int|
                    0 <= a < remaining.len() ==> self.tables@[a] == remaining[a]);
                assert(self.tables@[remaining.len() as int] == rec);
            }
        }
    }
}

/// Releasing entry by entry, the last entry can be peeled off the back.
proof fn lemma_release_snoc(
    m: Map<Seq<char>, TableModelV>,
    tx: u64,
    entries: Seq<TxTableVNV>,
    e: TxTableVNV,
)
    ensures
        spec_release(m, tx, entries.push(e)) == spec_release_entry(
            spec_release(m, tx, entries),
            tx,
            e,
        ),
    decreases entries.len(),
{
    let whole = entries.push(e);
    if entries.len() == 0 {
        assert(whole[0] == e);
        assert(whole.subrange(1, whole.len() as int) =~= Seq::<TxTableVNV>::empty());
        let m1 = spec_release_entry(m, tx, e);
        assert(spec_release(m, tx, whole) == spec_release(
            m1,
            tx,
            whole.subrange(1, whole.len() as int),
        ));
        assert(spec_release(m1, tx, Seq::<TxTableVNV>::empty()) == m1);
        assert(spec_release(m, tx, entries) == m);
    } else {
        assert(whole[0] == entries[0]);
        assert(whole.subrange(1, whole.len() as int) =~= entries.subrange(
            1,
            entries.len() as int,
        ).push(e));
        let m1 = spec_release_entry(m, tx, entries[0]);
        lemma_release_snoc(m1, tx, entries.subrange(1, entries.len() as int), e);
        assert(spec_release(m, tx, whole) == spec_release(
            m1,
            tx,
            whole.subrange(1, whole.len() as int),
        ));
        assert(spec_release(m, tx, entries) == spec_release(
            m1,
            tx,
            entries.subrange(1, entries.len() as int),
        ));
    }
}

impl DbVN {
    /// Give up the versions a transaction held: each entry is recorded once
    /// (a duplicate release by the same transaction is ignored) and the
    /// table's counter advances past every consecutively released version.
    /// No counter ever decreases.
    pub fn release_version(&mut self, request: &DbVNReleaseRequest)
        requires
            old(self).wf(),
            forall|i: int|
                0 <= i < request@.entries.len() ==> (#[trigger] request@.entries[i]).vn
                    < u64::MAX,
        ensures
            final(self).wf(),
            final(self)@ == spec_release(old(self)@, request@.tx_uuid, request@.entries),
            forall|t: Seq<char>| #[trigger] spec_get(final(self)@, t) >= spec_get(old(self)@, t),
    {
        let tx = request.tx_uuid();
        let entries = request.entries();
        let ghost entries_v = request@.entries;
        let n = entries.len();
        let mut i: usize = 0;
        while i < n
            invariant
                n == entries@.len(),
                entries@.map_values(|e: TxTableVN| e@) == entries_v,
                entries_v == request@.entries,
                tx == request@.tx_uuid,
                forall|j: int| 0 <= j < entries_v.len() ==> (#[trigger] entries_v[j]).vn < u64::MAX,
                i <= n,
                self.wf(),
                self@ == spec_release(old(self)@, tx, entries_v.subrange(0, i as int)),
            decreases n - i,
        {
            proof {
                assert(entries@[i as int]@ == entries_v[i as int]);
                lemma_release_snoc(old(self)@, tx, entries_v.subrange(0, i as int), entries_v[i as int]);
                assert(entries_v.subrange(0, i + 1 as int) =~= entries_v.subrange(0, i as int).push(
                    entries_v[i as int],
                ));
            }
            self.release_entry(tx, &entries[i]);
            i += 1;
        }
        proof {
            assert(entries_v.subrange(0, n as int) =~= entries_v);
            old(self).lemma_wf_model();
            lemma_release_monotone(old(self)@, tx, entries_v);
        }
    }
}

/// The sum of the next-version counters of a sequence of records.
spec fn sum_next(s: Seq<TableRecord>) -> int
    decreases s.len(),
{
    if s.len() == 0 {
        0
    } else {
        sum_next(s.drop_last()) + s.last().next_vn
    }
}

} // verus!
