//! `dbproxy_addr -> handle`: the Dispatcher's table of the one channel it
//! holds towards each replica.

use vstd::prelude::*;

verus! {

spec fn pm_has<T>(s: Seq<(String, T)>, a: Seq<char>) -> bool {
    exists|i: int| 0 <= i < s.len() && (#[trigger] s[i]).0@ == a
}

spec fn pm_index_of<T>(s: Seq<(String, T)>, a: Seq<char>) -> int {
    choose|i: int| 0 <= i < s.len() && (#[trigger] s[i]).0@ == a
}

spec fn pm_unique<T>(s: Seq<(String, T)>) -> bool {
    forall|i: int, j: int| 0 <= i < j < s.len() ==> s[i].0@ != s[j].0@
}

/// Appending a record with a fresh address inserts exactly it.
proof fn lemma_pm_push<T>(s: Seq<(String, T)>, r: (String, T))
    requires
        pm_unique(s),
        !pm_has(s, r.0@),
    ensures
        pm_unique(s.push(r)),
        Map::new(
            |a: Seq<char>| pm_has(s.push(r), a),
            |a: Seq<char>| s.push(r)[pm_index_of(s.push(r), a)].1,
        ) =~= Map::new(
            |a: Seq<char>| pm_has(s, a),
            |a: Seq<char>| s[pm_index_of(s, a)].1,
        ).insert(r.0@, r.1),
{
    let s2 = s.push(r);
    assert forall|a: int, b: int| 0 <= a < b < s2.len() implies s2[a].0@ != s2[b].0@ by {
        if b < s.len() {
            assert(s2[a] == s[a] && s2[b] == s[b]);
        } else {
            assert(s2[b] == r && s2[a] == s[a]);
            if s[a].0@ == r.0@ {
                assert(pm_has(s, r.0@));
            }
        }
    }
    assert forall|t: Seq<char>| #![auto] true implies (pm_has(s2, t) <==> (pm_has(s, t) || t
        == r.0@)) by {
        if pm_has(s2, t) {
            let a = pm_index_of(s2, t);
            if a < s.len() {
                assert(s[a].0@ == t);
            } else {
                assert(s2[a] == r);
            }
        }
        if pm_has(s, t) {
            let a = pm_index_of(s, t);
            assert(s2[a].0@ == t);
        }
        if t == r.0@ {
            assert(s2[s.len() as int].0@ == t);
        }
    }
    assert forall|t: Seq<char>| pm_has(s2, t) implies s2[pm_index_of(s2, t)].1 == (if t == r.0@ {
        r.1
    } else {
        s[pm_index_of(s, t)].1
    }) by {
        let a = pm_index_of(s2, t);
        assert(0 <= a < s2.len() && s2[a].0@ == t);
        if t == r.0@ {
            if a < s.len() {
                assert(pm_has(s, r.0@));
            }
            assert(s2[a] == r);
        } else {
            assert(a < s.len());
            let b = pm_index_of(s, t);
            if b != a {
                assert(false);
            }
        }
    }
}

/// One handle per replica address.
#[derive(Debug)]
pub struct DbproxyManager<T> {
    entries: Vec<(String, T)>,
}

impl<T> View for DbproxyManager<T> {
    type V = Map<Seq<char>, T>;

    closed spec fn view(&self) -> Map<Seq<char>, T> {
        Map::new(
            |a: Seq<char>| pm_has(self.entries@, a),
            |a: Seq<char>| self.entries@[pm_index_of(self.entries@, a)].1,
        )
    }
}

impl<T> DbproxyManager<T> {
    pub closed spec fn wf(&self) -> bool {
        pm_unique(self.entries@)
    }

    pub closed spec fn spec_len(&self) -> nat {
        self.entries@.len()
    }

    pub closed spec fn spec_addr(&self, i: int) -> Seq<char> {
        self.entries@[i].0@
    }

    /// One record per replica address; a duplicate address is kept once, the
    /// first occurrence winning.
    #[verifier::rlimit(50)]
    pub fn from_iter(pairs: Vec<(String, T)>) -> (r: Self)
        ensures
            r.wf(),
            forall|a: Seq<char>|
                #[trigger] r@.dom().contains(a) <==> (exists|i: int|
                    0 <= i < pairs@.len() && (#[trigger] pairs@[i]).0@ == a),
            // each address maps to the handle of its first occurrence
            forall|i: int|
                0 <= i < pairs@.len() && (forall|j: int|
                    0 <= j < i ==> (#[trigger] pairs@[j]).0@ != pairs@[i].0@) ==> r@[(
                #[trigger] pairs@[i]).0@] == pairs@[i].1,
    {
        let mut entries: Vec<(String, T)> = Vec::new();
        let mut pairs = pairs;
        let ghost all = pairs@;
        let n = pairs.len();
        let mut i: usize = 0;
        while i < n
            invariant
                pairs@.len() + i == n,
                all.len() == n,
                forall|k: int| 0 <= k < pairs@.len() ==> pairs@[k] == all[k + i],
                i <= n,
                pm_unique(entries@),
                forall|a: Seq<char>|
                    #[trigger] pm_has(entries@, a) <==> (exists|k: int|
                        0 <= k < i && (#[trigger] all[k]).0@ == a),
                forall|k: int|
                    0 <= k < i && (forall|j: int|
                        0 <= j < k ==> (#[trigger] all[j]).0@ != all[k].0@) ==> Map::new(
                        |a: Seq<char>| pm_has(entries@, a),
                        |a: Seq<char>| entries@[pm_index_of(entries@, a)].1,
                    )[(#[trigger] all[k]).0@] == all[k].1,
            decreases n - i,
        {
            let pair = pairs.remove(0);
            proof {
                assert(pair == all[i as int]);
                assert(forall|k: int| 0 <= k < pairs@.len() ==> pairs@[k] == all[k + i + 1]);
            }
            let mut seen = false;
            let m = entries.len();
            let mut j: usize = 0;
            while j < m
                invariant
                    m == entries@.len(),
                    j <= m,
                    seen == exists|k: int| 0 <= k < j && (#[trigger] entries@[k]).0@ == pair.0@,
                decreases m - j,
            {
                if entries[j].0 == pair.0 {
                    seen = true;
                }
                j += 1;
            }
            let ghost prev = entries@;
            if !seen {
                entries.push(pair);
                proof {
                    let pushed = entries@.last();
                    assert(entries@ == prev.push(pushed));
                    assert(pushed == all[i as int]);
                    assert(!pm_has(prev, pushed.0@)) by {
                        if pm_has(prev, pushed.0@) {
                            let k = pm_index_of(prev, pushed.0@);
                        }
                    }
                    lemma_pm_push(prev, pushed);
                    assert forall|a: Seq<char>| #[trigger] pm_has(entries@, a) implies (a
                        == all[i as int].0@ || pm_has(prev, a)) by {
                        let k = choose|k: int|
                            0 <= k < entries@.len() && (#[trigger] entries@[k]).0@ == a;
                        if k < prev.len() {
                            assert(prev[k].0@ == a);
                        }
                    }
                    assert forall|a: Seq<char>| pm_has(prev, a) implies #[trigger] pm_has(
                        entries@,
                        a,
                    ) by {
                        let k = choose|k: int|
                            0 <= k < prev.len() && (#[trigger] prev[k]).0@ == a;
                        assert(entries@[k].0@ == a);
                    }
                    assert(pm_has(entries@, all[i as int].0@)) by {
                        assert(entries@[prev.len() as int].0@ == all[i as int].0@);
                    }
                }
            }
            proof {
                let cur_view = Map::new(
                    |a: Seq<char>| pm_has(entries@, a),
                    |a: Seq<char>| entries@[pm_index_of(entries@, a)].1,
                );
                let prev_view = Map::new(
                    |a: Seq<char>| pm_has(prev, a),
                    |a: Seq<char>| prev[pm_index_of(prev, a)].1,
                );
                assert forall|a: Seq<char>| #[trigger] pm_has(entries@, a) implies (exists|k: int|
                    0 <= k < i + 1 && (#[trigger] all[k]).0@ == a) by {
                    if a == all[i as int].0@ {
                        assert(all[i as int].0@ == a);
                    }
                }
                assert forall|k: int|
                    0 <= k < i + 1 && (forall|j: int|
                        0 <= j < k ==> (#[trigger] all[j]).0@ != all[k].0@) implies cur_view[(
                #[trigger] all[k]).0@] == all[k].1 by {
                    if k == i {
                        // this is the first occurrence of the address: it was
                        // not seen among the earlier records, so it was pushed
                        assert(!seen) by {
                            if seen {
                                let e = choose|e: int|
                                    0 <= e < prev.len() && (#[trigger] prev[e]).0@
                                        == all[i as int].0@;
                                assert(pm_has(prev, all[i as int].0@));
                                let j = choose|j: int|
                                    0 <= j < i && (#[trigger] all[j]).0@ == all[i as int].0@;
                                assert(all[j].0@ == all[i as int].0@);
                                assert(false);
                            }
                        }
                        assert(cur_view == prev_view.insert(all[i as int].0@, all[i as int].1));
                    } else {
                        assert(prev_view[all[k].0@] == all[k].1);
                        if !seen {
                            assert(cur_view == prev_view.insert(
                                all[i as int].0@,
                                all[i as int].1,
                            ));
                            if all[k].0@ == all[i as int].0@ {
                                // the earlier occurrence contradicts freshness
                                assert(prev_view.dom().contains(all[k].0@));
                                assert(pm_has(prev, all[i as int].0@));
                                assert(false);
                            }
                            assert(cur_view[all[k].0@] == prev_view[all[k].0@]);
                        }
                    }
                }
            }
            i += 1;
        }
        DbproxyManager { entries }
    }

    /// The handle of one replica.
    pub fn get(&self, dbproxy_addr: &String) -> (r: Option<&T>)
        requires
            self.wf(),
        ensures
            match r {
                Some(t) => self@.dom().contains(dbproxy_addr@) && *t == self@[dbproxy_addr@],
                None => !self@.dom().contains(dbproxy_addr@),
            },
    {
        let n = self.entries.len();
        let mut i: usize = 0;
        while i < n
            invariant
                n == self.entries@.len(),
                self.wf(),
                i <= n,
                forall|j: int| 0 <= j < i ==> (#[trigger] self.entries@[j]).0@ != dbproxy_addr@,
            decreases n - i,
        {
            if self.entries[i].0 == *dbproxy_addr {
                proof {
                    assert(pm_has(self.entries@, dbproxy_addr@));
                    let k = pm_index_of(self.entries@, dbproxy_addr@);
                    if k != i {
                        assert(false);
                    }
                }
                return Some(&self.entries[i].1);
            }
            i += 1;
        }
        proof {
            if pm_has(self.entries@, dbproxy_addr@) {
                let k = pm_index_of(self.entries@, dbproxy_addr@);
                assert(false);
            }
        }
        None
    }

    /// Every record, for iteration.
    pub fn inner(&self) -> (r: &Vec<(String, T)>)
        requires
            self.wf(),
        ensures
            r@.len() == self.spec_len(),
            forall|i: int| 0 <= i < r@.len() ==> (#[trigger] r@[i]).0@ == self.spec_addr(i),
            forall|i: int|
                0 <= i < r@.len() ==> self@.dom().contains((#[trigger] r@[i]).0@) && r@[i].1
                    == self@[r@[i].0@],
    {
        proof {
            assert forall|i: int| 0 <= i < self.entries@.len() implies self@.dom().contains(
                (#[trigger] self.entries@[i]).0@,
            ) && self.entries@[i].1 == self@[self.entries@[i].0@] by {
                assert(pm_has(self.entries@, self.entries@[i].0@));
                let k = pm_index_of(self.entries@, self.entries@[i].0@);
                if k != i {
                    assert(false);
                }
            }
        }
        &self.entries
    }
}

impl<T: Clone> DbproxyManager<T> {
    /// A copy of every record: the same addresses, each handle cloned.
    pub fn to_vec(&self) -> (r: Vec<(String, T)>)
        requires
            self.wf(),
        ensures
            r@.len() == self.spec_len(),
            forall|i: int| 0 <= i < r@.len() ==> (#[trigger] r@[i]).0@ == self.spec_addr(i),
            forall|i: int|
                0 <= i < r@.len() ==> vstd::pervasive::cloned::<T>(
                    self@[(#[trigger] r@[i]).0@],
                    r@[i].1,
                ),
    {
        let n = self.entries.len();
        let mut out: Vec<(String, T)> = Vec::new();
        let mut i: usize = 0;
        while i < n
            invariant
                n == self.entries@.len(),
                i <= n,
                out@.len() == i,
                forall|j: int| 0 <= j < i ==> (#[trigger] out@[j]).0@ == self.entries@[j].0@,
                forall|j: int|
                    0 <= j < i ==> vstd::pervasive::cloned::<T>(
                        self.entries@[j].1,
                        (#[trigger] out@[j]).1,
                    ),
            decreases n - i,
        {
            let addr = self.entries[i].0.clone();
            let t = self.entries[i].1.clone();
            out.push((addr, t));
            i += 1;
        }
        proof {
            assert forall|i: int| 0 <= i < out@.len() implies vstd::pervasive::cloned::<T>(
                self@[(#[trigger] out@[i]).0@],
                out@[i].1,
            ) by {
                assert(pm_has(self.entries@, self.entries@[i].0@)) by {
                    assert(self.entries@[i].0@ == self.entries@[i].0@);
                }
                let k = pm_index_of(self.entries@, self.entries@[i].0@);
                assert(0 <= k < self.entries@.len() && self.entries@[k].0@ == self.entries@[i].0@);
                if k != i {
                    assert(false);
                }
                assert(self@[out@[i].0@] == self.entries@[i].1);
            }
        }
        out
    }
}

} // verus!
