//! Dispatcher decisions: where a read goes, that a write goes everywhere, and
//! how the replicas' replies are consolidated into one.

use vstd::prelude::*;

use crate::manager::DbVNManager;
use crate::version::DbTableVN;

verus! {

/// The requests a replica currently has outstanding (for read placement).
pub open spec fn spec_load(load: Seq<(String, u64)>, addr: Seq<char>) -> u64 {
    if exists|i: int| 0 <= i < load.len() && (#[trigger] load[i]).0@ == addr {
        load[choose|i: int| 0 <= i < load.len() && (#[trigger] load[i]).0@ == addr].1
    } else {
        0
    }
}

/// One outstanding-count record per replica.
pub open spec fn load_unique(load: Seq<(String, u64)>) -> bool {
    forall|i: int, j: int| 0 <= i < j < load.len() ==> load[i].0@ != load[j].0@
}

/// Look one replica's outstanding count up.
fn load_of(load: &Vec<(String, u64)>, addr: &String) -> (r: u64)
    requires
        load_unique(load@),
    ensures
        r == spec_load(load@, addr@),
{
    let n = load.len();
    let mut i: usize = 0;
    while i < n
        invariant
            n == load@.len(),
            load_unique(load@),
            i <= n,
            forall|j: int| 0 <= j < i ==> (#[trigger] load@[j]).0@ != addr@,
        decreases n - i,
    {
        if load[i].0 == *addr {
            proof {
                let k = choose|k: int| 0 <= k < load@.len() && (#[trigger] load@[k]).0@ == addr@;
                if k != i {
                    assert(false);
                }
            }
            return load[i].1;
        }
        i += 1;
    }
    proof {
        if exists|k: int| 0 <= k < load@.len() && (#[trigger] load@[k]).0@ == addr@ {
            let k = choose|k: int| 0 <= k < load@.len() && (#[trigger] load@[k]).0@ == addr@;
            assert(false);
        }
    }
    0
}

/// Pick the read replica among the eligible candidates: the one with the
/// fewest outstanding requests; on a tie, the first — with candidates in
/// ascending address order, the smallest address. Some replica is chosen
/// exactly when a candidate exists.
pub fn select_read_replica(
    candidates: &Vec<(String, Vec<DbTableVN>)>,
    load: &Vec<(String, u64)>,
) -> (r: Option<usize>)
    requires
        load_unique(load@),
    ensures
        match r {
            Some(k) => {
                &&& k < candidates@.len()
                &&& forall|j: int|
                    0 <= j < candidates@.len() ==> spec_load(
                        load@,
                        (#[trigger] candidates@[j]).0@,
                    ) >= spec_load(load@, candidates@[k as int].0@)
                &&& forall|j: int|
                    0 <= j < k ==> spec_load(load@, (#[trigger] candidates@[j]).0@) > spec_load(
                        load@,
                        candidates@[k as int].0@,
                    )
            },
            None => candidates@.len() == 0,
        },
{
    let n = candidates.len();
    if n == 0 {
        return None;
    }
    let mut best: usize = 0;
    let mut best_load = load_of(load, &candidates[0].0);
    let mut i: usize = 1;
    while i < n
        invariant
            n == candidates@.len(),
            load_unique(load@),
            1 <= i <= n,
            best < i,
            best_load == spec_load(load@, candidates@[best as int].0@),
            forall|j: int|
                0 <= j < i ==> spec_load(load@, (#[trigger] candidates@[j]).0@) >= best_load,
            forall|j: int|
                0 <= j < best ==> spec_load(load@, (#[trigger] candidates@[j]).0@) > best_load,
        decreases n - i,
    {
        let l = load_of(load, &candidates[i].0);
        if l < best_load {
            best = i;
            best_load = l;
        }
        i += 1;
    }
    Some(best)
}

/// The aggregated error text of a write fan-out: each failing replica's
/// message, each followed by a separator.
pub open spec fn spec_errors(replies: Seq<Result<Seq<char>, Seq<char>>>) -> Seq<char>
    decreases replies.len(),
{
    if replies.len() == 0 {
        Seq::empty()
    } else {
        (match replies[0] {
            Ok(_) => Seq::<char>::empty(),
            Err(m) => m + "; "@,
        }) + spec_errors(replies.subrange(1, replies.len() as int))
    }
}

/// One consolidated reply for a write fan-out: success with the first body
/// when every replica succeeded (replicas must agree), else the aggregated
/// error.
pub open spec fn spec_consolidate(replies: Seq<Result<Seq<char>, Seq<char>>>) -> Result<
    Seq<char>,
    Seq<char>,
> {
    if replies.len() == 0 {
        Err("No replies from replicas"@)
    } else if forall|i: int| 0 <= i < replies.len() ==> (#[trigger] replies[i]) is Ok {
        Ok(replies[0]->Ok_0)
    } else {
        Err(spec_errors(replies))
    }
}

/// The view of a reply list.
pub open spec fn replies_view(replies: Seq<Result<String, String>>) -> Seq<
    Result<Seq<char>, Seq<char>>,
> {
    replies.map_values(
        |r: Result<String, String>|
            match r {
                Ok(m) => Ok(m@),
                Err(m) => Err(m@),
            },
    )
}

/// Consolidate the per-replica results of one write fan-out.
pub fn consolidate_write_replies(replies: &Vec<Result<String, String>>) -> (r: Result<
    String,
    String,
>)
    ensures
        (match r {
            Ok(m) => Ok(m@),
            Err(m) => Err(m@),
        }) == spec_consolidate(replies_view(replies@)),
{
    let ghost rv = replies_view(replies@);
    let n = replies.len();
    if n == 0 {
        return Err("No replies from replicas".to_owned());
    }
    let mut all_ok = true;
    let mut errors = String::new();
    let mut i: usize = 0;
    proof {
        assert(rv.subrange(0, n as int) =~= rv);
        assert(errors@ + spec_errors(rv.subrange(0, 0)) =~= spec_errors(rv.subrange(0, 0)));
        assert(spec_errors(rv.subrange(0, 0)) =~= Seq::<char>::empty());
    }
    while i < n
        invariant
            n == replies@.len(),
            rv == replies_view(replies@),
            i <= n,
            all_ok == forall|j: int| 0 <= j < i ==> (#[trigger] rv[j]) is Ok,
            errors@ == spec_errors(rv.subrange(0, i as int)),
        decreases n - i,
    {
        let ghost prev = errors@;
        match &replies[i] {
            Ok(_) => {},
            Err(m) => {
                all_ok = false;
                errors.append(m.as_str());
                errors.append("; ");
            },
        }
        proof {
            assert(rv[i as int] == (match replies@[i as int] {
                Ok(m) => Ok::<Seq<char>, Seq<char>>(m@),
                Err(m) => Err::<Seq<char>, Seq<char>>(m@),
            }));
            lemma_errors_snoc(rv.subrange(0, i as int), rv[i as int]);
            assert(rv.subrange(0, i + 1 as int) =~= rv.subrange(0, i as int).push(rv[i as int]));
            if rv[i as int] is Ok {
                assert(errors@ =~= prev + Seq::<char>::empty());
            }
        }
        i += 1;
    }
    proof {
        assert(rv.subrange(0, n as int) =~= rv);
    }
    if all_ok {
        match &replies[0] {
            Ok(m) => Ok(m.clone()),
            Err(_) => {
                proof {
                    assert(rv[0] is Ok);
                    assert(false);
                }
                Err(String::new())
            },
        }
    } else {
        Err(errors)
    }
}

/// The aggregate error of one more reply stands at the end.
proof fn lemma_errors_snoc(replies: Seq<Result<Seq<char>, Seq<char>>>, x: Result<
    Seq<char>,
    Seq<char>,
>)
    ensures
        spec_errors(replies.push(x)) == spec_errors(replies) + (match x {
            Ok(_) => Seq::<char>::empty(),
            Err(m) => m + "; "@,
        }),
    decreases replies.len(),
{
    let whole = replies.push(x);
    let item = match x {
        Ok(_) => Seq::<char>::empty(),
        Err(m) => m + "; "@,
    };
    if replies.len() == 0 {
        assert(whole[0] == x);
        assert(whole.subrange(1, whole.len() as int) =~= Seq::<Result<Seq<char>, Seq<char>>>::empty());
        assert(spec_errors(whole.subrange(1, whole.len() as int)) =~= Seq::<char>::empty());
        assert(spec_errors(whole) =~= item);
        assert(spec_errors(replies) =~= Seq::<char>::empty());
        assert(spec_errors(replies) + item =~= item);
    } else {
        assert(whole[0] == replies[0]);
        assert(whole.subrange(1, whole.len() as int) =~= replies.subrange(
            1,
            replies.len() as int,
        ).push(x));
        lemma_errors_snoc(replies.subrange(1, replies.len() as int), x);
        assert(spec_errors(whole) =~= spec_errors(replies) + item);
    }
}

/// Every write query is issued to exactly the configured replicas: the
/// fan-out targets are the manager's replicas, whole and without repetition.
pub fn write_query_targets(manager: &DbVNManager) -> (r: Vec<String>)
    requires
        manager.wf(),
    ensures
        r@.len() == manager.spec_len(),
        forall|i: int| 0 <= i < r@.len() ==> (#[trigger] r@[i])@ == manager.spec_addr(i),
        forall|i: int| 0 <= i < r@.len() ==> manager@.dom().contains((#[trigger] r@[i])@),
        forall|i: int, j: int| 0 <= i < j < r@.len() ==> r@[i]@ != r@[j]@,
{
    manager.all_addrs()
}

} // verus!
