//! The process-wide `DbVNManager`: one `DbVN` per replica, read for
//! placement decisions and written only by releases.

use vstd::prelude::*;

use crate::dbvn::{
    DbVN, TableModelV, lemma_release_clears_holding, model_wf, released_by, spec_can_execute,
    spec_get, spec_release, tbl,
};
use crate::msql::{AccessPattern, TableOps, spec_access_pattern};
use crate::version::{
    DbTableVN, DbVNReleaseRequest, TxTableVN, TxVN, selected_entries, tableops_covered,
};
use itertools::Itertools;

verus! {

/// Order on replica addresses: code-point lexicographic.
pub open spec fn lex_le(a: Seq<char>, b: Seq<char>) -> bool
    decreases a.len(),
{
    if a.len() == 0 {
        true
    } else if b.len() == 0 {
        false
    } else if (a[0] as u32) < (b[0] as u32) {
        true
    } else if (a[0] as u32) > (b[0] as u32) {
        false
    } else {
        lex_le(a.subrange(1, a.len() as int), b.subrange(1, b.len() as int))
    }
}

/// Relies on itertools' `sorted_by_key` over the `String` key: the result is
/// the same pairs, in ascending order of the address; `String`'s order is
/// byte-lexicographic, which on UTF-8 text is code-point lexicographic.
#[verifier::external_body]
fn sort_pairs_by_addr(v: Vec<(String, Vec<DbTableVN>)>) -> (r: Vec<(String, Vec<DbTableVN>)>)
    ensures
        r@.to_multiset() == v@.to_multiset(),
        forall|i: int, j: int| 0 <= i < j < r@.len() ==> lex_le(r@[i].0@, r@[j].0@),
{
    v.into_iter().sorted_by_key(|p: &(String, Vec<DbTableVN>)| p.0.clone()).collect()
}

/// The per-table model of one replica, keyed by its address; an unknown
/// replica starts with every table at version 0.
pub open spec fn replica_model(
    m: Map<Seq<char>, Map<Seq<char>, TableModelV>>,
    addr: Seq<char>,
) -> Map<Seq<char>, TableModelV> {
    if m.dom().contains(addr) {
        m[addr]
    } else {
        Map::empty()
    }
}

spec fn mgr_has(s: Seq<(String, DbVN)>, a: Seq<char>) -> bool {
    exists|i: int| 0 <= i < s.len() && s[i].0@ == a
}

spec fn mgr_index_of(s: Seq<(String, DbVN)>, a: Seq<char>) -> int {
    choose|i: int| 0 <= i < s.len() && s[i].0@ == a
}

spec fn mgr_unique(s: Seq<(String, DbVN)>) -> bool {
    forall|i: int, j: int| 0 <= i < j < s.len() ==> s[i].0@ != s[j].0@
}

/// `dbproxy_addr -> DbVN`: every replica's per-table version counters.
#[derive(Debug)]
pub struct DbVNManager {
    replicas: Vec<(String, DbVN)>,
}

impl View for DbVNManager {
    type V = Map<Seq<char>, Map<Seq<char>, TableModelV>>;

    closed spec fn view(&self) -> Map<Seq<char>, Map<Seq<char>, TableModelV>> {
        Map::new(
            |a: Seq<char>| mgr_has(self.replicas@, a),
            |a: Seq<char>| self.replicas@[mgr_index_of(self.replicas@, a)].1@,
        )
    }
}

impl DbVNManager {
    /// Unique addresses, each replica record well formed.
    pub closed spec fn wf(&self) -> bool {
        mgr_unique(self.replicas@) && (forall|i: int|
            0 <= i < self.replicas@.len() ==> (#[trigger] self.replicas@[i]).1.wf())
    }

    /// The number of configured replicas.
    pub closed spec fn spec_len(&self) -> nat {
        self.replicas@.len()
    }

    /// The address of the replica at a position.
    pub closed spec fn spec_addr(&self, i: int) -> Seq<char> {
        self.replicas@[i].0@
    }

    /// The model of the replica at a position.
    pub closed spec fn spec_dbvn_at(&self, i: int) -> Map<Seq<char>, TableModelV> {
        self.replicas@[i].1@
    }

    /// A well-formed manager holds a well-formed model for every replica.
    pub proof fn lemma_wf_models(&self)
        requires
            self.wf(),
        ensures
            forall|a: Seq<char>| #[trigger] model_wf(replica_model(self@, a)),
    {
        assert forall|a: Seq<char>| #[trigger] model_wf(replica_model(self@, a)) by {
            if self@.dom().contains(a) {
                let i = mgr_index_of(self.replicas@, a);
                assert(0 <= i < self.replicas@.len() && self.replicas@[i].0@ == a);
                assert(self.replicas@[i].1.wf());
                self.replicas@[i].1.lemma_wf_model();
            }
        }
    }

    /// Positions enumerate the model: the record at `i` is the model at its
    /// address.
    pub proof fn lemma_view_at(&self, i: int)
        requires
            self.wf(),
            0 <= i < self.spec_len(),
        ensures
            self@.dom().contains(self.spec_addr(i)),
            self@[self.spec_addr(i)] == self.spec_dbvn_at(i),
    {
        assert(mgr_has(self.replicas@, self.replicas@[i].0@));
        let k = mgr_index_of(self.replicas@, self.replicas@[i].0@);
        if k != i {
            assert(false);
        }
    }

    /// One record per replica address, each starting with every table at
    /// version 0; a duplicate address in the input is kept once.
    pub fn from_iter(addrs: Vec<String>) -> (r: Self)
        ensures
            r.wf(),
            forall|a: Seq<char>|
                #[trigger] r@.dom().contains(a) <==> (exists|i: int|
                    0 <= i < addrs@.len() && (#[trigger] addrs@[i])@ == a),
            forall|a: Seq<char>| r@.dom().contains(a) ==> (#[trigger] r@[a]) =~= Map::empty(),
    {
        let mut replicas: Vec<(String, DbVN)> = Vec::new();
        let n = addrs.len();
        let mut i: usize = 0;
        while i < n
            invariant
                n == addrs@.len(),
                i <= n,
                mgr_unique(replicas@),
                forall|k: int|
                    0 <= k < replicas@.len() ==> (#[trigger] replicas@[k]).1.wf()
                        && replicas@[k].1@ =~= Map::<Seq<char>, TableModelV>::empty(),
                forall|a: Seq<char>|
                    #[trigger] mgr_has(replicas@, a) <==> (exists|k: int|
                        0 <= k < i && (#[trigger] addrs@[k])@ == a),
            decreases n - i,
        {
            let mut seen = false;
            let m = replicas.len();
            let mut j: usize = 0;
            while j < m
                invariant
                    m == replicas@.len(),
                    j <= m,
                    i < n == addrs@.len(),
                    seen == exists|k: int| 0 <= k < j && (#[trigger] replicas@[k]).0@ == addrs@[i as int]@,
                decreases m - j,
            {
                if replicas[j].0 == addrs[i] {
                    seen = true;
                }
                j += 1;
            }
            if !seen {
                let ghost prev = replicas@;
                replicas.push((addrs[i].clone(), DbVN::default()));
                proof {
                    assert forall|a: Seq<char>| #[trigger] mgr_has(replicas@, a) implies (a
                        == addrs@[i as int]@ || mgr_has(prev, a)) by {
                        let k = choose|k: int| 0 <= k < replicas@.len() && replicas@[k].0@ == a;
                        if k < prev.len() {
                            assert(prev[k].0@ == a);
                        }
                    }
                    assert forall|a: Seq<char>| mgr_has(prev, a) implies #[trigger] mgr_has(
                        replicas@,
                        a,
                    ) by {
                        let k = choose|k: int| 0 <= k < prev.len() && prev[k].0@ == a;
                        assert(replicas@[k].0@ == a);
                    }
                    assert(replicas@[prev.len() as int].0@ == addrs@[i as int]@);
                }
            }
            proof {
                assert forall|a: Seq<char>| #[trigger] mgr_has(replicas@, a) implies (exists|k: int|
                    0 <= k < i + 1 && (#[trigger] addrs@[k])@ == a) by {
                    if a == addrs@[i as int]@ {
                        assert(addrs@[i as int]@ == a);
                    }
                }
            }
            i += 1;
        }
        let r = DbVNManager { replicas };
        r
    }

    /// Whether an address is one of the configured replicas.
    pub fn contains_replica(&self, addr: &String) -> (r: bool)
        ensures
            r == self@.dom().contains(addr@),
    {
        let n = self.replicas.len();
        let mut i: usize = 0;
        while i < n
            invariant
                n == self.replicas@.len(),
                i <= n,
                forall|j: int| 0 <= j < i ==> (#[trigger] self.replicas@[j]).0@ != addr@,
            decreases n - i,
        {
            if self.replicas[i].0 == *addr {
                assert(mgr_has(self.replicas@, addr@));
                return true;
            }
            i += 1;
        }
        proof {
            if mgr_has(self.replicas@, addr@) {
                let k = mgr_index_of(self.replicas@, addr@);
                assert(0 <= k < self.replicas@.len() && self.replicas@[k].0@ == addr@);
            }
        }
        false
    }

    /// Every replica record, for iteration.
    pub fn inner(&self) -> (r: &Vec<(String, DbVN)>)
        requires
            self.wf(),
        ensures
            r@.len() == self.spec_len(),
            forall|i: int| 0 <= i < r@.len() ==> (#[trigger] r@[i]).0@ == self.spec_addr(i),
            forall|i: int|
                0 <= i < r@.len() ==> self@.dom().contains((#[trigger] r@[i]).0@) && r@[i].1@
                    == self@[r@[i].0@],
    {
        proof {
            assert forall|i: int| 0 <= i < self.replicas@.len() implies self@.dom().contains(
                (#[trigger] self.replicas@[i]).0@,
            ) && self.replicas@[i].1@ == self@[self.replicas@[i].0@] by {
                self.lemma_view_at(i);
            }
        }
        &self.replicas
    }

    /// The number of configured replicas.
    pub fn len(&self) -> (r: usize)
        ensures
            r == self.spec_len(),
    {
        self.replicas.len()
    }

    /// Every configured replica address, in configuration order.
    pub fn all_addrs(&self) -> (r: Vec<String>)
        requires
            self.wf(),
        ensures
            r@.len() == self.spec_len(),
            forall|i: int| 0 <= i < r@.len() ==> (#[trigger] r@[i])@ == self.spec_addr(i),
            forall|i: int| 0 <= i < r@.len() ==> self@.dom().contains((#[trigger] r@[i])@),
            forall|i: int, j: int| 0 <= i < j < r@.len() ==> r@[i]@ != r@[j]@,
    {
        let n = self.replicas.len();
        let mut out: Vec<String> = Vec::new();
        let mut i: usize = 0;
        while i < n
            invariant
                n == self.replicas@.len(),
                i <= n,
                self.wf(),
                out@.len() == i,
                forall|j: int| 0 <= j < i ==> (#[trigger] out@[j])@ == self.replicas@[j].0@,
            decreases n - i,
        {
            out.push(self.replicas[i].0.clone());
            proof {
                self.lemma_view_at(i as int);
            }
            i += 1;
        }
        proof {
            assert forall|i: int| 0 <= i < out@.len() implies self@.dom().contains(
                (#[trigger] out@[i])@,
            ) by {
                self.lemma_view_at(i);
            }
        }
        out
    }
}

/// Removing a replica record removes exactly its address from the view.
proof fn lemma_mgr_remove(s: Seq<(String, DbVN)>, i: int)
    requires
        mgr_unique(s),
        0 <= i < s.len(),
    ensures
        mgr_unique(s.remove(i)),
        Map::new(
            |a: Seq<char>| mgr_has(s.remove(i), a),
            |a: Seq<char>| s.remove(i)[mgr_index_of(s.remove(i), a)].1@,
        ) =~= Map::new(
            |a: Seq<char>| mgr_has(s, a),
            |a: Seq<char>| s[mgr_index_of(s, a)].1@,
        ).remove(s[i].0@),
        !mgr_has(s.remove(i), s[i].0@),
{
    let s2 = s.remove(i);
    assert forall|a: int, b: int| 0 <= a < b < s2.len() implies s2[a].0@ != s2[b].0@ by {
        assert(s2[a] == (if a < i { s[a] } else { s[a + 1] }));
        assert(s2[b] == (if b < i { s[b] } else { s[b + 1] }));
    }
    assert forall|t: Seq<char>| #![auto] true implies (mgr_has(s2, t) <==> (mgr_has(s, t) && t
        != s[i].0@)) by {
        if mgr_has(s2, t) {
            let a = mgr_index_of(s2, t);
            assert(s2[a] == (if a < i { s[a] } else { s[a + 1] }));
            if t == s[i].0@ {
                assert(false);
            }
        }
        if mgr_has(s, t) && t != s[i].0@ {
            let a = mgr_index_of(s, t);
            assert(0 <= a < s.len() && s[a].0@ == t);
            if a < i {
                assert(s2[a] == s[a]);
            } else {
                assert(a > i);
                assert(s2[a - 1] == s[a]);
            }
        }
    }
    assert forall|t: Seq<char>| mgr_has(s2, t) implies s2[mgr_index_of(s2, t)].1@ == s[
        mgr_index_of(s, t)].1@ by {
        let a = mgr_index_of(s2, t);
        assert(0 <= a < s2.len() && s2[a].0@ == t);
        assert(s2[a] == (if a < i { s[a] } else { s[a + 1] }));
        let b = mgr_index_of(s, t);
        let orig: int = if a < i { a } else { a + 1 };
        assert(s[orig].0@ == t);
        assert(0 <= b < s.len() && s[b].0@ == t);
        if b != orig {
            assert(false);
        }
    }
}

/// Appending a replica record with a fresh address inserts exactly it.
proof fn lemma_mgr_push(s: Seq<(String, DbVN)>, r: (String, DbVN))
    requires
        mgr_unique(s),
        !mgr_has(s, r.0@),
    ensures
        mgr_unique(s.push(r)),
        Map::new(
            |a: Seq<char>| mgr_has(s.push(r), a),
            |a: Seq<char>| s.push(r)[mgr_index_of(s.push(r), a)].1@,
        ) =~= Map::new(
            |a: Seq<char>| mgr_has(s, a),
            |a: Seq<char>| s[mgr_index_of(s, a)].1@,
        ).insert(r.0@, r.1@),
{
    let s2 = s.push(r);
    assert forall|a: int, b: int| 0 <= a < b < s2.len() implies s2[a].0@ != s2[b].0@ by {
        if b < s.len() {
            assert(s2[a] == s[a] && s2[b] == s[b]);
        } else {
            assert(s2[b] == r && s2[a] == s[a]);
            if s[a].0@ == r.0@ {
                assert(mgr_has(s, r.0@));
            }
        }
    }
    assert forall|t: Seq<char>| #![auto] true implies (mgr_has(s2, t) <==> (mgr_has(s, t) || t
        == r.0@)) by {
        if mgr_has(s2, t) {
            let a = mgr_index_of(s2, t);
            if a < s.len() {
                assert(s[a].0@ == t);
            } else {
                assert(s2[a] == r);
            }
        }
        if mgr_has(s, t) {
            let a = mgr_index_of(s, t);
            assert(s2[a].0@ == t);
        }
        if t == r.0@ {
            assert(s2[s.len() as int].0@ == t);
        }
    }
    assert forall|t: Seq<char>| mgr_has(s2, t) implies s2[mgr_index_of(s2, t)].1@ == (if t == r.0@ {
        r.1@
    } else {
        s[mgr_index_of(s, t)].1@
    }) by {
        let a = mgr_index_of(s2, t);
        assert(0 <= a < s2.len() && s2[a].0@ == t);
        if t == r.0@ {
            if a < s.len() {
                assert(mgr_has(s, r.0@));
            }
            assert(s2[a] == r);
        } else {
            assert(a < s.len());
            let b = mgr_index_of(s, t);
            if b != a {
                assert(false);
            }
        }
    }
}

impl DbVNManager {
    /// Release the versions a transaction held, on one replica. A replica not
    /// seen before starts fresh at version 0 for every table. No counter of
    /// any replica ever decreases.
    pub fn release_version(&mut self, dbproxy_addr: &String, release_request: DbVNReleaseRequest)
        requires
            old(self).wf(),
            forall|i: int|
                0 <= i < release_request@.entries.len() ==> (#[trigger] release_request@.entries[i]).vn
                    < u64::MAX,
        ensures
            final(self).wf(),
            final(self)@ =~= old(self)@.insert(
                dbproxy_addr@,
                spec_release(
                    replica_model(old(self)@, dbproxy_addr@),
                    release_request@.tx_uuid,
                    release_request@.entries,
                ),
            ),
            forall|a: Seq<char>, t: Seq<char>|
                #![auto]
                spec_get(replica_model(final(self)@, a), t) >= spec_get(
                    replica_model(old(self)@, a),
                    t,
                ),
    {
        let ghost s0 = self.replicas@;
        let ghost addr = dbproxy_addr@;
        let mut dbvn: DbVN = match self.find_replica(dbproxy_addr) {
            Some(i) => {
                proof {
                    self.lemma_view_at(i as int);
                    lemma_mgr_remove(s0, i as int);
                }
                self.replicas.remove(i).1
            },
            None => DbVN::default(),
        };
        proof {
            assert(mgr_unique(self.replicas@));
            assert(!mgr_has(self.replicas@, addr));
            assert(Map::new(
                |a: Seq<char>| mgr_has(self.replicas@, a),
                |a: Seq<char>| self.replicas@[mgr_index_of(self.replicas@, a)].1@,
            ) =~= old(self)@.remove(addr));
            assert(dbvn@ == replica_model(old(self)@, addr)) by {
                if !mgr_has(s0, addr) {
                    assert(dbvn@ =~= Map::<Seq<char>, crate::dbvn::TableModelV>::empty());
                }
            }
            assert(dbvn.wf()) by {
                if mgr_has(s0, addr) {
                    let i = mgr_index_of(s0, addr);
                }
            }
            assert(forall|k: int|
                0 <= k < self.replicas@.len() ==> (#[trigger] self.replicas@[k]) == s0[k]
                    || (k + 1 < s0.len() + 1 && self.replicas@[k] == s0[k + 1]));
        }
        dbvn.release_version(&release_request);
        let ghost remaining = self.replicas@;
        self.replicas.push((dbproxy_addr.clone(), dbvn));
        proof {
            let pushed = self.replicas@.last();
            assert(pushed.0@ == addr && pushed.1 == dbvn);
            assert(self.replicas@ == remaining.push(pushed));
            lemma_mgr_push(remaining, pushed);
            assert(self@ =~= old(self)@.remove(addr).insert(addr, dbvn@));
            assert(self@ =~= old(self)@.insert(
                addr,
                spec_release(
                    replica_model(old(self)@, addr),
                    release_request@.tx_uuid,
                    release_request@.entries,
                ),
            ));
            assert(forall|k: int|
                0 <= k < remaining.len() ==> (#[trigger] self.replicas@[k]) == remaining[k]);
            assert(self.replicas@[remaining.len() as int].1 == dbvn);
            assert forall|a: Seq<char>, t: Seq<char>|
                #![auto]
                true implies spec_get(replica_model(self@, a), t) >= spec_get(
                replica_model(old(self)@, a),
                t,
            ) by {
                if a == addr {
                    assert(replica_model(self@, a) == dbvn@);
                } else {
                    if old(self)@.dom().contains(a) {
                        assert(replica_model(self@, a) == replica_model(old(self)@, a));
                    }
                }
            }
        }
    }

    /// The replicas that can serve a read-only statement now, each with the
    /// versions it currently serves on the statement's tables, in ascending
    /// address order. A replica is eligible exactly when, for every table the
    /// statement touches, its counter has reached the version the transaction
    /// holds (a held write needs the counter exactly).
    pub fn get_all_that_can_execute_read_query(&self, tableops: &TableOps, txvn: &TxVN) -> (r: Vec<
        (String, Vec<DbTableVN>),
    >)
        requires
            self.wf(),
            txvn.wf(),
            spec_access_pattern(tableops@) == AccessPattern::ReadOnly,
            tableops_covered(txvn@.txtablevns, tableops@),
        ensures
            // every returned replica can execute the read at this moment
            forall|k: int|
                0 <= k < r@.len() ==> self@.dom().contains((#[trigger] r@[k]).0@)
                    && spec_can_execute(
                    self@[r@[k].0@],
                    selected_entries(txvn@.txtablevns, tableops@),
                ),
            // it reports the versions that replica serves, in statement order
            forall|k: int|
                0 <= k < r@.len() ==> (#[trigger] r@[k]).1@.len() == tableops@.len() && (forall|
                    t: int,
                |
                    0 <= t < tableops@.len() ==> (#[trigger] r@[k].1@[t])@.table
                        == tableops@[t].table && r@[k].1@[t]@.vn == spec_get(
                        self@[r@[k].0@],
                        tableops@[t].table,
                    )),
            // every eligible replica is returned
            forall|i: int|
                0 <= i < self.spec_len() && spec_can_execute(
                    #[trigger] self.spec_dbvn_at(i),
                    selected_entries(txvn@.txtablevns, tableops@),
                ) ==> exists|k: int| 0 <= k < r@.len() && (#[trigger] r@[k]).0@ == self.spec_addr(i),
            // each replica at most once
            forall|i: int, j: int| 0 <= i < j < r@.len() ==> (#[trigger] r@[i]).0@ != (#[trigger] r@[j]).0@,
            // ascending address order
            forall|i: int, j: int| 0 <= i < j < r@.len() ==> lex_le(r@[i].0@, r@[j].0@),
    {
        broadcast use vstd::seq_lib::group_to_multiset_ensures;

        let ghost sel = selected_entries(txvn@.txtablevns, tableops@);
        let txtablevns = match txvn.get_from_tableops(tableops) {
            Ok(v) => v,
            Err(_) => {
                proof {
                    assert(false);
                }
                Vec::new()
            },
        };
        proof {
            assert(txtablevns@.map_values(|e: TxTableVN| e@) =~= sel);
        }
        let mut cand: Vec<(String, Vec<DbTableVN>)> = Vec::new();
        let n = self.replicas.len();
        let mut i: usize = 0;
        while i < n
            invariant
                n == self.replicas@.len(),
                i <= n,
                self.wf(),
                txtablevns@.map_values(|e: TxTableVN| e@) == sel,
                forall|k: int|
                    0 <= k < cand@.len() ==> self@.dom().contains((#[trigger] cand@[k]).0@)
                        && spec_can_execute(self@[cand@[k].0@], sel),
                forall|k: int|
                    0 <= k < cand@.len() ==> (#[trigger] cand@[k]).1@.len() == tableops@.len() && (
                    forall|t: int|
                        0 <= t < tableops@.len() ==> (#[trigger] cand@[k].1@[t])@.table
                            == tableops@[t].table && cand@[k].1@[t]@.vn == spec_get(
                            self@[cand@[k].0@],
                            tableops@[t].table,
                        )),
                forall|j: int|
                    0 <= j < i && spec_can_execute(#[trigger] self.spec_dbvn_at(j), sel)
                        ==> exists|k: int|
                        0 <= k < cand@.len() && (#[trigger] cand@[k]).0@ == self.spec_addr(j),
                forall|k: int|
                    0 <= k < cand@.len() ==> exists|j: int|
                        0 <= j < i && (#[trigger] cand@[k]).0@ == self.spec_addr(j),
                forall|k: int, l: int|
                    0 <= k < l < cand@.len() ==> (#[trigger] cand@[k]).0@ != (
                    #[trigger] cand@[l]).0@,
            decreases n - i,
        {
            proof {
                self.lemma_view_at(i as int);
            }
            if self.replicas[i].1.can_execute_query(&txtablevns) {
                let versions = self.replicas[i].1.get_from_tableops(tableops);
                let ghost prev = cand@;
                cand.push((self.replicas[i].0.clone(), versions));
                proof {
                    assert(cand@.last().0@ == self.spec_addr(i as int));
                    assert(forall|k: int| 0 <= k < prev.len() ==> cand@[k] == prev[k]);
                    assert forall|k: int| 0 <= k < cand@.len() implies exists|j: int|
                        0 <= j < i + 1 && (#[trigger] cand@[k]).0@ == self.spec_addr(j) by {
                        if k < prev.len() {
                            let j = choose|j: int|
                                0 <= j < i && (#[trigger] prev[k]).0@ == self.spec_addr(j);
                            assert(cand@[k].0@ == self.spec_addr(j));
                        } else {
                            assert(cand@[k].0@ == self.spec_addr(i as int));
                        }
                    }
                    assert forall|k: int, l: int| 0 <= k < l < cand@.len() implies (
                    #[trigger] cand@[k]).0@ != (#[trigger] cand@[l]).0@ by {
                        if l == cand@.len() - 1 {
                            let j = choose|j: int|
                                0 <= j < i && (#[trigger] prev[k]).0@ == self.spec_addr(j);
                            assert(cand@[k].0@ == self.spec_addr(j));
                            assert(cand@[l].0@ == self.spec_addr(i as int));
                            if self.spec_addr(j) == self.spec_addr(i as int) {
                                assert(self.replicas@[j].0@ == self.replicas@[i as int].0@);
                                assert(false);
                            }
                        }
                    }
                    assert forall|j: int|
                        0 <= j < i + 1 && spec_can_execute(#[trigger] self.spec_dbvn_at(j), sel)
                            implies exists|k: int|
                            0 <= k < cand@.len() && (#[trigger] cand@[k]).0@ == self.spec_addr(
                            j,
                        ) by {
                        if j == i {
                            assert(cand@[cand@.len() - 1].0@ == self.spec_addr(j));
                        } else {
                            let k = choose|k: int|
                                0 <= k < prev.len() && (#[trigger] prev[k]).0@ == self.spec_addr(j);
                            assert(cand@[k].0@ == self.spec_addr(j));
                        }
                    }
                }
            } else {
                proof {
                    assert(!spec_can_execute(self.spec_dbvn_at(i as int), sel));
                }
            }
            i += 1;
        }
        let r = sort_pairs_by_addr(cand);
        proof {
            assert forall|k: int| 0 <= k < r@.len() implies (self@.dom().contains(
                (#[trigger] r@[k]).0@,
            ) && spec_can_execute(self@[r@[k].0@], sel) && r@[k].1@.len() == tableops@.len() && (
            forall|t: int|
                0 <= t < tableops@.len() ==> (#[trigger] r@[k].1@[t])@.table == tableops@[t].table
                    && r@[k].1@[t]@.vn == spec_get(self@[r@[k].0@], tableops@[t].table))) by {
                assert(r@.to_multiset().contains(r@[k]));
                assert(cand@.to_multiset().contains(r@[k]));
                assert(cand@.contains(r@[k]));
                let m = choose|m: int| 0 <= m < cand@.len() && cand@[m] == r@[k];
            }
            assert(cand@.no_duplicates()) by {
                assert forall|a: int, b: int|
                    0 <= a < b < cand@.len() implies cand@[a] != cand@[b] by {
                    assert(cand@[a].0@ != cand@[b].0@);
                }
            }
            cand@.lemma_multiset_has_no_duplicates();
            assert(forall|x: (String, Vec<DbTableVN>)|
                r@.to_multiset().contains(x) ==> #[trigger] r@.to_multiset().count(x) == 1);
            r@.lemma_multiset_has_no_duplicates_conv();
            assert forall|i: int, j: int| 0 <= i < j < r@.len() implies (#[trigger] r@[i]).0@ != (
            #[trigger] r@[j]).0@ by {
                if r@[i].0@ == r@[j].0@ {
                    assert(r@.to_multiset().contains(r@[i]));
                    assert(cand@.contains(r@[i]));
                    assert(r@.to_multiset().contains(r@[j]));
                    assert(cand@.contains(r@[j]));
                    let a = choose|a: int| 0 <= a < cand@.len() && cand@[a] == r@[i];
                    let b = choose|b: int| 0 <= b < cand@.len() && cand@[b] == r@[j];
                    if a != b {
                        assert(cand@[a].0@ != cand@[b].0@);
                    }
                    assert(r@[i] == r@[j]);
                    assert(false);
                }
            }
            assert forall|i: int|
                0 <= i < self.spec_len() && spec_can_execute(#[trigger] self.spec_dbvn_at(i), sel)
                    implies exists|k: int|
                    0 <= k < r@.len() && (#[trigger] r@[k]).0@ == self.spec_addr(i) by {
                let m = choose|m: int|
                    0 <= m < cand@.len() && (#[trigger] cand@[m]).0@ == self.spec_addr(i);
                assert(cand@.to_multiset().contains(cand@[m]));
                assert(r@.to_multiset().contains(cand@[m]));
                assert(r@.contains(cand@[m]));
                let k = choose|k: int| 0 <= k < r@.len() && r@[k] == cand@[m];
                assert(r@[k].0@ == self.spec_addr(i));
            }
        }
        r
    }

    /// Once a transaction's versions are released on every replica — as its
    /// `EndTx` does — no replica still counts any of its held versions: every
    /// table of the transaction records it as released, everywhere.
    pub proof fn lemma_endtx_clears_holding_everywhere(
        m: Map<Seq<char>, Map<Seq<char>, TableModelV>>,
        tx: u64,
        entries: Seq<crate::version::TxTableVNV>,
    )
        requires
            forall|a: Seq<char>| #[trigger] model_wf(replica_model(m, a)),
            forall|i: int| 0 <= i < entries.len() ==> (#[trigger] entries[i]).vn < u64::MAX,
        ensures
            forall|a: Seq<char>, i: int|
                #![auto]
                m.dom().contains(a) && 0 <= i < entries.len() ==> released_by(
                    tbl(spec_release(m[a], tx, entries), entries[i].table).marks,
                    tx,
                ),
    {
        assert forall|a: Seq<char>, i: int|
            #![auto]
            m.dom().contains(a) && 0 <= i < entries.len() implies released_by(
            tbl(spec_release(m[a], tx, entries), entries[i].table).marks,
            tx,
        ) by {
            assert(model_wf(replica_model(m, a)));
            assert(replica_model(m, a) == m[a]);
            lemma_release_clears_holding(m[a], tx, entries);
        }
    }

    /// Every replica the model knows stands at some position.
    pub proof fn lemma_dom_enumerated(&self)
        requires
            self.wf(),
        ensures
            forall|a: Seq<char>|
                #[trigger] self@.dom().contains(a) ==> exists|i: int|
                    0 <= i < self.spec_len() && self.spec_addr(i) == a,
    {
        assert forall|a: Seq<char>| #[trigger] self@.dom().contains(a) implies exists|i: int|
            0 <= i < self.spec_len() && self.spec_addr(i) == a by {
            let i = mgr_index_of(self.replicas@, a);
            assert(0 <= i < self.replicas@.len() && self.replicas@[i].0@ == a);
            assert(self.spec_addr(i) == a);
        }
    }

    /// Release the versions a transaction held, on every configured replica,
    /// as `EndTx` does. No counter of any replica ever decreases.
    pub fn release_version_on_all(&mut self, release_request: &DbVNReleaseRequest)
        requires
            old(self).wf(),
            forall|i: int|
                0 <= i < release_request@.entries.len()
                    ==> (#[trigger] release_request@.entries[i]).vn < u64::MAX,
        ensures
            final(self).wf(),
            final(self)@.dom() =~= old(self)@.dom(),
            forall|a: Seq<char>|
                old(self)@.dom().contains(a) ==> #[trigger] final(self)@[a] == spec_release(
                    old(self)@[a],
                    release_request@.tx_uuid,
                    release_request@.entries,
                ),
            forall|a: Seq<char>, t: Seq<char>|
                #![auto]
                spec_get(replica_model(final(self)@, a), t) >= spec_get(
                    replica_model(old(self)@, a),
                    t,
                ),
    {
        let addrs = self.all_addrs();
        let n = addrs.len();
        let mut i: usize = 0;
        proof {
            old(self).lemma_dom_enumerated();
            assert forall|a: Seq<char>| #[trigger] old(self)@.dom().contains(a) implies exists|
                k: int,
            | 0 <= k < n && (#[trigger] addrs@[k])@ == a by {
                let j = choose|j: int|
                    0 <= j < old(self).spec_len() && old(self).spec_addr(j) == a;
                assert(addrs@[j]@ == a);
            }
        }
        while i < n
            invariant
                n == addrs@.len(),
                i <= n,
                self.wf(),
                forall|k: int|
                    0 <= k < release_request@.entries.len()
                        ==> (#[trigger] release_request@.entries[k]).vn < u64::MAX,
                n == old(self).spec_len(),
                forall|k: int| 0 <= k < n ==> (#[trigger] addrs@[k])@ == old(self).spec_addr(k),
                forall|k: int|
                    0 <= k < n ==> old(self)@.dom().contains((#[trigger] addrs@[k])@),
                forall|k: int, l: int| 0 <= k < l < n ==> addrs@[k]@ != addrs@[l]@,
                forall|a: Seq<char>|
                    #[trigger] old(self)@.dom().contains(a) ==> exists|k: int|
                        0 <= k < n && (#[trigger] addrs@[k])@ == a,
                self@.dom() =~= old(self)@.dom(),
                forall|k: int|
                    0 <= k < i ==> #[trigger] self@[addrs@[k]@] == spec_release(
                        old(self)@[addrs@[k]@],
                        release_request@.tx_uuid,
                        release_request@.entries,
                    ),
                forall|k: int| i <= k < n ==> #[trigger] self@[addrs@[k]@] == old(self)@[addrs@[k]@],
                forall|a: Seq<char>, t: Seq<char>|
                    #![auto]
                    spec_get(replica_model(self@, a), t) >= spec_get(
                        replica_model(old(self)@, a),
                        t,
                    ),
            decreases n - i,
        {
            let ghost prev = self@;
            self.release_version(&addrs[i], release_request.clone());
            proof {
                assert(self@ =~= prev.insert(
                    addrs@[i as int]@,
                    spec_release(
                        replica_model(prev, addrs@[i as int]@),
                        release_request@.tx_uuid,
                        release_request@.entries,
                    ),
                ));
                assert(prev.dom().contains(addrs@[i as int]@));
                assert(self@.dom() =~= old(self)@.dom());
                assert forall|k: int| 0 <= k < i + 1 implies #[trigger] self@[addrs@[k]@]
                    == spec_release(
                    old(self)@[addrs@[k]@],
                    release_request@.tx_uuid,
                    release_request@.entries,
                ) by {
                    if k < i {
                        assert(addrs@[k]@ != addrs@[i as int]@);
                        assert(self@[addrs@[k]@] == prev[addrs@[k]@]);
                    } else {
                        assert(prev[addrs@[i as int]@] == old(self)@[addrs@[i as int]@]);
                    }
                }
                assert forall|k: int| i + 1 <= k < n implies #[trigger] self@[addrs@[k]@] == old(
                    self,
                )@[addrs@[k]@] by {
                    assert(addrs@[k]@ != addrs@[i as int]@);
                    assert(self@[addrs@[k]@] == prev[addrs@[k]@]);
                }
            }
            i += 1;
        }
        proof {
            assert forall|a: Seq<char>| old(self)@.dom().contains(a) implies #[trigger] self@[a]
                == spec_release(
                old(self)@[a],
                release_request@.tx_uuid,
                release_request@.entries,
            ) by {
                let k = choose|k: int| 0 <= k < n && (#[trigger] addrs@[k])@ == a;
                assert(self@[addrs@[k]@] == spec_release(
                    old(self)@[addrs@[k]@],
                    release_request@.tx_uuid,
                    release_request@.entries,
                ));
            }
        }
    }

    /// The sum of one replica's version counters, for observation.
    pub closed spec fn spec_sum_at(&self, i: int) -> int {
        self.replicas@[i].1.spec_version_sum()
    }

    /// Every replica's address with the sum of its version counters, in
    /// configuration order — the observational dump.
    pub fn version_sums(&self) -> (r: Vec<(String, u128)>)
        requires
            self.wf(),
        ensures
            r@.len() == self.spec_len(),
            forall|i: int|
                0 <= i < r@.len() ==> (#[trigger] r@[i]).0@ == self.spec_addr(i) && r@[i].1
                    == self.spec_sum_at(i),
    {
        let n = self.replicas.len();
        let mut out: Vec<(String, u128)> = Vec::new();
        let mut i: usize = 0;
        while i < n
            invariant
                n == self.replicas@.len(),
                i <= n,
                self.wf(),
                out@.len() == i,
                forall|j: int|
                    0 <= j < i ==> (#[trigger] out@[j]).0@ == self.replicas@[j].0@ && out@[j].1
                        == self.replicas@[j].1.spec_version_sum(),
            decreases n - i,
        {
            let sum = self.replicas[i].1.get_version_sum();
            out.push((self.replicas[i].0.clone(), sum));
            i += 1;
        }
        out
    }

    /// The position of the record for a replica, if one exists.
    fn find_replica(&self, addr: &String) -> (r: Option<usize>)
        ensures
            match r {
                Some(i) => i < self.replicas@.len() && self.replicas@[i as int].0@ == addr@,
                None => !mgr_has(self.replicas@, addr@),
            },
    {
        let n = self.replicas.len();
        let mut i: usize = 0;
        while i < n
            invariant
                n == self.replicas@.len(),
                i <= n,
                forall|j: int| 0 <= j < i ==> (#[trigger] self.replicas@[j]).0@ != addr@,
            decreases n - i,
        {
            if self.replicas[i].0 == *addr {
                return Some(i);
            }
            i += 1;
        }
        None
    }
}

} // verus!
