//! The logic of a fetch cycle: which ranked ids are fetched, how workers
//! claim them one at a time, and how their outcomes are put back in rank
//! order with the failures left out.

use vstd::prelude::*;

verus! {

/// How many of `len` ranked ids a cycle with limit `limit` fetches.
pub open spec fn candidate_count(len: nat, limit: nat) -> nat {
    if len <= limit {
        len
    } else {
        limit
    }
}

/// The first `limit` ids of the ranking, or all of them when there are
/// fewer; the list is never padded.
pub fn take_candidates(ids: Vec<i64>, limit: usize) -> (r: Vec<i64>)
    ensures
        r@ == ids@.take(candidate_count(ids@.len(), limit as nat) as int),
{
    let ghost all = ids@;
    let mut ids = ids;
    ids.truncate(limit);
    assert(ids@ =~= all.take(candidate_count(all.len(), limit as nat) as int));
    ids
}

/// What a claim on a counter at `next` over `len` indices hands out, and
/// where the counter stands afterwards.
pub open spec fn claim_step(next: nat, len: nat) -> (Option<nat>, nat) {
    if next < len {
        (Some(next), next + 1)
    } else {
        (None, next)
    }
}

pub open spec fn as_claim(r: Option<usize>) -> Option<nat> {
    match r {
        Some(i) => Some(i as nat),
        None => None,
    }
}

/// The shared counter from which workers claim the indices of a candidate
/// list, one at a time, in increasing order.
pub struct Dispatcher {
    next: usize,
    len: usize,
}

impl View for Dispatcher {
    /// The next index to hand out, and the number of indices.
    type V = (nat, nat);

    closed spec fn view(&self) -> (nat, nat) {
        (self.next as nat, self.len as nat)
    }
}

impl Dispatcher {
    /// A counter over the indices `0..len`, none of them claimed yet.
    pub fn new(len: usize) -> (r: Self)
        ensures
            r@ == (0nat, len as nat),
    {
        Dispatcher { next: 0, len }
    }

    /// Claims the next unclaimed index, or `None` once all are claimed.
    pub fn claim_next(&mut self) -> (r: Option<usize>)
        ensures
            (as_claim(r), final(self)@.0) == claim_step(old(self)@.0, old(self)@.1),
            final(self)@.1 == old(self)@.1,
    {
        if self.next < self.len {
            let i = self.next;
            self.next = self.next + 1;
            Some(i)
        } else {
            None
        }
    }
}

/// The claims made, in order, on a fresh counter over `len` indices after
/// `k` of them, and where the counter stands afterwards.
pub open spec fn claim_history(len: nat, k: nat) -> (Seq<Option<nat>>, nat)
    decreases k,
{
    if k == 0 {
        (Seq::empty(), 0)
    } else {
        let prev = claim_history(len, (k - 1) as nat);
        let s = claim_step(prev.1, len);
        (prev.0.push(s.0), s.1)
    }
}

/// The indices handed to worker `j`, where claim `i` was made by `workers[i]`.
pub open spec fn claimed_by(len: nat, workers: Seq<nat>, j: nat) -> Set<nat> {
    Set::new(
        |x: nat|
            exists|i: int|
                0 <= i < workers.len() && workers[i] == j && (#[trigger] claim_history(
                    len,
                    workers.len(),
                ).0[i]) == Some(x),
    )
}

/// Whether worker `j` made a claim that was refused, the pool being exhausted.
pub open spec fn refused(len: nat, workers: Seq<nat>, j: nat) -> bool {
    exists|i: int|
        0 <= i < workers.len() && workers[i] == j && (#[trigger] claim_history(
            len,
            workers.len(),
        ).0[i]) is None
}

/// The indices handed to any of the workers `0..w`.
pub open spec fn claimed_by_any(len: nat, workers: Seq<nat>, w: nat) -> Set<nat> {
    Set::new(|x: nat| exists|j: nat| j < w && #[trigger] claimed_by(len, workers, j).contains(x))
}

proof fn lemma_claim_history(len: nat, k: nat)
    ensures
        claim_history(len, k).0.len() == k,
        claim_history(len, k).1 == candidate_count(k, len),
        forall|i: int|
            0 <= i < k ==> #[trigger] claim_history(len, k).0[i] == (if i < len {
                Some(i as nat)
            } else {
                None
            }),
    decreases k,
{
    if k > 0 {
        lemma_claim_history(len, (k - 1) as nat);
    }
}

/// However `w` workers interleave their claims on one shared counter over
/// `len` indices (claim `i` made by worker `workers[i]`), no index is handed
/// out twice, so no index goes to two workers; and once every worker has
/// been refused a claim, every index below `len` has been handed out: the
/// union of the workers' indices is exactly `0..len`.
pub proof fn lemma_claims_partition_indices(len: nat, w: nat, workers: Seq<nat>)
    requires
        w >= 1,
        forall|i: int| 0 <= i < workers.len() ==> #[trigger] workers[i] < w,
        forall|j: nat| j < w ==> #[trigger] refused(len, workers, j),
    ensures
        forall|a: int, b: int|
            0 <= a < b < workers.len() && (#[trigger] claim_history(len, workers.len()).0[a])
                is Some ==> claim_history(len, workers.len()).0[a] != #[trigger] claim_history(
                len,
                workers.len(),
            ).0[b],
        forall|j1: nat, j2: nat|
            j1 != j2 ==> #[trigger] claimed_by(len, workers, j1).disjoint(
                #[trigger] claimed_by(len, workers, j2),
            ),
        claimed_by_any(len, workers, w) == Set::new(|x: nat| x < len),
{
    let k = workers.len();
    let h = claim_history(len, k).0;
    lemma_claim_history(len, k);
    assert forall|j1: nat, j2: nat| j1 != j2 implies #[trigger] claimed_by(len, workers, j1).disjoint(
        #[trigger] claimed_by(len, workers, j2),
    ) by {
        assert forall|x: nat| !(claimed_by(len, workers, j1).contains(x) && claimed_by(len, workers, j2).contains(x)) by {
            if claimed_by(len, workers, j1).contains(x) && claimed_by(len, workers, j2).contains(x) {
                let i1 = choose|i: int| 0 <= i < workers.len() && workers[i] == j1 && h[i] == Some(x);
                let i2 = choose|i: int| 0 <= i < workers.len() && workers[i] == j2 && h[i] == Some(x);
                assert(h[i1] == Some(i1 as nat));
                assert(h[i2] == Some(i2 as nat));
            }
        }
    }
    let j0 = 0nat;
    assert(refused(len, workers, j0));
    let i0 = choose|i: int| 0 <= i < workers.len() && workers[i] == j0 && h[i] is None;
    assert(i0 >= len);
    assert forall|x: nat| x < len implies claimed_by_any(len, workers, w).contains(x) by {
        assert(h[x as int] == Some(x));
        assert(claimed_by(len, workers, workers[x as int]).contains(x));
    }
    assert forall|x: nat| claimed_by_any(len, workers, w).contains(x) implies x < len by {
        let j = choose|j: nat| j < w && #[trigger] claimed_by(len, workers, j).contains(x);
        let i = choose|i: int| 0 <= i < workers.len() && workers[i] == j && h[i] == Some(x);
    }
    assert(claimed_by_any(len, workers, w) =~= Set::new(|x: nat| x < len));
}

/// The ranks of the filled slots, in increasing order.
pub open spec fn filled_ranks<T>(slots: Seq<Option<T>>) -> Seq<int>
    decreases slots.len(),
{
    if slots.len() == 0 {
        Seq::empty()
    } else {
        let rest = filled_ranks(slots.skip(1)).map_values(|r: int| r + 1);
        match slots[0] {
            Some(_) => seq![0int] + rest,
            None => rest,
        }
    }
}

proof fn lemma_successes_len<T>(slots: Seq<Option<T>>)
    ensures
        successes(slots).len() <= slots.len(),
        (forall|i: int| 0 <= i < slots.len() ==> (#[trigger] slots[i]) is Some) ==> {
            &&& successes(slots).len() == slots.len()
            &&& forall|j: int| 0 <= j < slots.len() ==> slots[j] == Some(#[trigger] successes(slots)[j])
        },
    decreases slots.len(),
{
    if slots.len() > 0 {
        let tail = slots.skip(1);
        lemma_successes_len(tail);
        if forall|i: int| 0 <= i < slots.len() ==> (#[trigger] slots[i]) is Some {
            assert forall|i: int| 0 <= i < tail.len() implies (#[trigger] tail[i]) is Some by {
                assert(tail[i] == slots[i + 1]);
            }
            assert forall|j: int| 0 <= j < slots.len() implies slots[j] == Some(#[trigger] successes(slots)[j]) by {
                if j > 0 {
                    assert(tail[j - 1] == slots[j]);
                }
            }
        }
    }
}

proof fn lemma_successes_append<T>(a: Seq<Option<T>>, b: Seq<Option<T>>)
    ensures
        successes(a + b) == successes(a) + successes(b),
    decreases a.len(),
{
    if a.len() == 0 {
        assert(a + b =~= b);
        assert(successes(a) + successes(b) =~= successes(b));
    } else {
        lemma_successes_append(a.skip(1), b);
        assert((a + b).skip(1) =~= a.skip(1) + b);
        assert((a + b)[0] == a[0]);
        match a[0] {
            Some(t) => {
                assert(seq![t] + (successes(a.skip(1)) + successes(b)) =~= (seq![t] + successes(a.skip(1))) + successes(b));
            },
            None => {},
        }
    }
}

/// With the ranks of the outcomes distinct and below `len`, each outcome
/// lands in the slot of its rank, and a rank without an outcome stays empty.
proof fn lemma_placed_at<T, E>(len: nat, outcomes: Seq<(usize, Result<T, E>)>)
    requires
        forall|i: int| 0 <= i < outcomes.len() ==> ((#[trigger] outcomes[i]).0 as nat) < len,
        forall|a: int, b: int|
            0 <= a < b < outcomes.len() ==> (#[trigger] outcomes[a]).0 != (#[trigger] outcomes[b]).0,
    ensures
        placed(len, outcomes).len() == len,
        forall|m: int|
            0 <= m < outcomes.len() ==> placed(len, outcomes)[(#[trigger] outcomes[m]).0 as int]
                == ok_value(outcomes[m].1),
        forall|x: int|
            0 <= x < len && (forall|m: int| 0 <= m < outcomes.len() ==> (#[trigger] outcomes[m]).0 != x)
                ==> #[trigger] placed(len, outcomes)[x] is None,
    decreases outcomes.len(),
{
    lemma_placed_len(len, outcomes);
    if outcomes.len() > 0 {
        let prev = outcomes.drop_last();
        lemma_placed_len(len, prev);
        lemma_placed_at(len, prev);
        let n = outcomes.len() - 1;
        assert forall|m: int| 0 <= m < outcomes.len() implies placed(len, outcomes)[(#[trigger] outcomes[m]).0 as int]
                == ok_value(outcomes[m].1) by {
            if m < n {
                assert(prev[m] == outcomes[m]);
            }
        }
        assert forall|x: int|
            0 <= x < len && (forall|m: int| 0 <= m < outcomes.len() ==> (#[trigger] outcomes[m]).0 != x)
                implies #[trigger] placed(len, outcomes)[x] is None by {
            assert forall|m: int| 0 <= m < prev.len() implies (#[trigger] prev[m]).0 != x by {
                assert(prev[m] == outcomes[m]);
            }
            assert(outcomes[n].0 != x);
        }
    }
}

/// A cycle over `ids` with limit `limit` fetches the first
/// `min(len(ids), limit)` ids, and the stories it yields are at most that
/// many; exactly that many when every task reports a success and every rank
/// reports.
pub proof fn lemma_story_count<T, E>(ids: Seq<i64>, limit: nat, outcomes: Seq<(usize, Result<T, E>)>)
    requires
        forall|i: int|
            0 <= i < outcomes.len() ==> ((#[trigger] outcomes[i]).0 as nat) < candidate_count(
                ids.len(),
                limit,
            ),
    ensures
        ids.take(candidate_count(ids.len(), limit) as int).len() == candidate_count(ids.len(), limit),
        candidate_count(ids.len(), limit) <= ids.len(),
        candidate_count(ids.len(), limit) <= limit,
        successes(placed(candidate_count(ids.len(), limit), outcomes)).len() <= candidate_count(
            ids.len(),
            limit,
        ),
        (forall|i: int| 0 <= i < outcomes.len() ==> (#[trigger] outcomes[i]).1 is Ok) && (forall|
            x: int,
        |
            0 <= x < candidate_count(ids.len(), limit) ==> #[trigger] has_outcome(outcomes, x))
            ==> successes(placed(candidate_count(ids.len(), limit), outcomes)).len()
            == candidate_count(ids.len(), limit),
{
    let n = candidate_count(ids.len(), limit);
    let slots = placed(n, outcomes);
    lemma_placed_len(n, outcomes);
    lemma_successes_len(slots);
    if (forall|i: int| 0 <= i < outcomes.len() ==> (#[trigger] outcomes[i]).1 is Ok) && (forall|x: int|
        0 <= x < n ==> #[trigger] has_outcome(outcomes, x)) {
        lemma_all_ok_fills(n, outcomes);
        assert forall|i: int| 0 <= i < slots.len() implies (#[trigger] slots[i]) is Some by {
            assert(has_outcome(outcomes, i));
        }
    }
}

/// Whether some outcome reports on rank `x`.
pub open spec fn has_outcome<T, E>(outcomes: Seq<(usize, Result<T, E>)>, x: int) -> bool {
    exists|m: int| 0 <= m < outcomes.len() && (#[trigger] outcomes[m]).0 == x
}

/// When every outcome is a success, a slot is filled just where some outcome
/// reports on its rank.
proof fn lemma_all_ok_fills<T, E>(len: nat, outcomes: Seq<(usize, Result<T, E>)>)
    requires
        forall|i: int| 0 <= i < outcomes.len() ==> ((#[trigger] outcomes[i]).0 as nat) < len,
        forall|i: int| 0 <= i < outcomes.len() ==> (#[trigger] outcomes[i]).1 is Ok,
    ensures
        forall|x: int| 0 <= x < len && #[trigger] has_outcome(outcomes, x) ==> placed(len, outcomes)[x] is Some,
    decreases outcomes.len(),
{
    lemma_placed_len(len, outcomes);
    if outcomes.len() > 0 {
        let prev = outcomes.drop_last();
        let n = outcomes.len() - 1;
        lemma_placed_len(len, prev);
        assert forall|i: int| 0 <= i < prev.len() implies ((#[trigger] prev[i]).0 as nat) < len && prev[i].1 is Ok by {
            assert(prev[i] == outcomes[i]);
        }
        lemma_all_ok_fills(len, prev);
        assert forall|x: int| 0 <= x < len && #[trigger] has_outcome(outcomes, x) implies placed(len, outcomes)[x] is Some by {
            let m = choose|m: int| 0 <= m < outcomes.len() && (#[trigger] outcomes[m]).0 == x;
            if m < n {
                assert(prev[m] == outcomes[m]);
                assert(has_outcome(prev, x));
            }
        }
    }
}

proof fn lemma_filled_ranks<T>(slots: Seq<Option<T>>)
    ensures
        filled_ranks(slots).len() == successes(slots).len(),
        forall|j: int|
            0 <= j < successes(slots).len() ==> 0 <= #[trigger] filled_ranks(slots)[j] < slots.len()
                && slots[filled_ranks(slots)[j]] == Some(successes(slots)[j]),
        forall|a: int, b: int|
            0 <= a < b < filled_ranks(slots).len() ==> #[trigger] filled_ranks(slots)[a]
                < #[trigger] filled_ranks(slots)[b],
    decreases slots.len(),
{
    if slots.len() > 0 {
        let tail = slots.skip(1);
        lemma_filled_ranks(tail);
        let rt = filled_ranks(tail);
        let rest = rt.map_values(|r: int| r + 1);
        let ranks = filled_ranks(slots);
        let out = successes(slots);
        assert forall|j: int| 0 <= j < rest.len() implies #[trigger] rest[j] == rt[j] + 1
            && 0 < rest[j] < slots.len() && slots[rest[j]] == Some(successes(tail)[j]) by {
            assert(tail[rt[j]] == slots[rt[j] + 1]);
        }
        match slots[0] {
            Some(t) => {
                assert forall|j: int| 0 < j < ranks.len() implies #[trigger] ranks[j] == rest[j - 1]
                    && out[j] == successes(tail)[j - 1] by {}
            },
            None => {},
        }
    }
}

/// The stories of a cycle come in strictly increasing rank: the `j`-th is
/// the record in slot `filled_ranks(..)[j]`, and those ranks increase
/// strictly. With the outcomes' ranks distinct, the record in the slot of
/// each rank is the one that the task of that rank produced.
pub proof fn lemma_aggregate_in_rank_order<T, E>(len: nat, outcomes: Seq<(usize, Result<T, E>)>)
    requires
        forall|i: int| 0 <= i < outcomes.len() ==> ((#[trigger] outcomes[i]).0 as nat) < len,
        forall|a: int, b: int|
            0 <= a < b < outcomes.len() ==> (#[trigger] outcomes[a]).0 != (#[trigger] outcomes[b]).0,
    ensures
        filled_ranks(placed(len, outcomes)).len() == successes(placed(len, outcomes)).len(),
        forall|j: int|
            0 <= j < successes(placed(len, outcomes)).len() ==> 0 <= #[trigger] filled_ranks(
                placed(len, outcomes),
            )[j] < len && placed(len, outcomes)[filled_ranks(placed(len, outcomes))[j]] == Some(
                successes(placed(len, outcomes))[j],
            ),
        forall|a: int, b: int|
            0 <= a < b < successes(placed(len, outcomes)).len() ==> #[trigger] filled_ranks(
                placed(len, outcomes),
            )[a] < #[trigger] filled_ranks(placed(len, outcomes))[b],
        forall|m: int|
            0 <= m < outcomes.len() ==> placed(len, outcomes)[(#[trigger] outcomes[m]).0 as int]
                == ok_value(outcomes[m].1),
{
    lemma_placed_at(len, outcomes);
    lemma_filled_ranks(placed(len, outcomes));
}

/// When the task at rank `k` alone fails and each rank below `len` reports
/// once, the stories are the records of all other ranks, in rank order: `k`
/// is left out, the records below it keep their position and those above it
/// move up by one.
pub proof fn lemma_single_failure_left_out<T, E>(
    len: nat,
    outcomes: Seq<(usize, Result<T, E>)>,
    k: nat,
)
    requires
        k < len,
        forall|i: int| 0 <= i < outcomes.len() ==> ((#[trigger] outcomes[i]).0 as nat) < len,
        forall|a: int, b: int|
            0 <= a < b < outcomes.len() ==> (#[trigger] outcomes[a]).0 != (#[trigger] outcomes[b]).0,
        forall|x: int| 0 <= x < len ==> #[trigger] has_outcome(outcomes, x),
        forall|m: int| 0 <= m < outcomes.len() ==> ((#[trigger] outcomes[m]).1 is Err <==> outcomes[m].0 == k),
    ensures
        successes(placed(len, outcomes)).len() == len - 1,
        forall|m: int|
            0 <= m < outcomes.len() && (#[trigger] outcomes[m]).0 < k ==> ok_value(outcomes[m].1)
                == Some(successes(placed(len, outcomes))[outcomes[m].0 as int]),
        forall|m: int|
            0 <= m < outcomes.len() && (#[trigger] outcomes[m]).0 > k ==> ok_value(outcomes[m].1)
                == Some(successes(placed(len, outcomes))[outcomes[m].0 - 1]),
{
    let slots = placed(len, outcomes);
    lemma_placed_at(len, outcomes);
    assert forall|x: int| 0 <= x < len implies (#[trigger] slots[x] is Some <==> x != k) by {
        assert(has_outcome(outcomes, x));
        let m = choose|m: int| 0 <= m < outcomes.len() && (#[trigger] outcomes[m]).0 == x;
        assert(slots[outcomes[m].0 as int] == ok_value(outcomes[m].1));
    }
    let a = slots.take(k as int);
    let b = slots.skip(k as int + 1);
    let none: Seq<Option<T>> = seq![None];
    assert(slots =~= a + none + b);
    lemma_successes_append(a + none, b);
    lemma_successes_append(a, none);
    assert(none.skip(1) =~= Seq::<Option<T>>::empty());
    assert(none[0] is None);
    assert(successes(none.skip(1)) =~= Seq::<T>::empty());
    assert(successes(none) =~= Seq::<T>::empty());
    assert forall|i: int| 0 <= i < a.len() implies (#[trigger] a[i]) is Some by {
        assert(a[i] == slots[i]);
    }
    assert forall|i: int| 0 <= i < b.len() implies (#[trigger] b[i]) is Some by {
        assert(b[i] == slots[i + k + 1]);
    }
    lemma_successes_len(a);
    lemma_successes_len(b);
    let out = successes(slots);
    assert(out =~= successes(a) + successes(b));
    assert forall|m: int| 0 <= m < outcomes.len() && (#[trigger] outcomes[m]).0 < k implies ok_value(outcomes[m].1)
        == Some(out[outcomes[m].0 as int]) by {
        let x = outcomes[m].0 as int;
        assert(a[x] == slots[x]);
        assert(a[x] == Some(successes(a)[x]));
    }
    assert forall|m: int| 0 <= m < outcomes.len() && (#[trigger] outcomes[m]).0 > k implies ok_value(outcomes[m].1)
        == Some(out[outcomes[m].0 - 1]) by {
        let x = outcomes[m].0 as int;
        assert(b[x - k - 1] == slots[x]);
        assert(b[x - k - 1] == Some(successes(b)[x - k - 1]));
    }
}

pub open spec fn ok_value<T, E>(r: Result<T, E>) -> Option<T> {
    match r {
        Ok(t) => Some(t),
        Err(_) => None,
    }
}

/// One slot per rank below `len`: slot `i` holds the record that the task at
/// rank `i` produced, and is empty where that task failed or reported
/// nothing. Of two outcomes for one rank the later counts.
pub open spec fn placed<T, E>(len: nat, outcomes: Seq<(usize, Result<T, E>)>) -> Seq<Option<T>>
    decreases outcomes.len(),
{
    if outcomes.len() == 0 {
        Seq::new(len, |i: int| None)
    } else {
        let last = outcomes.last();
        let prev = placed(len, outcomes.drop_last());
        if (last.0 as nat) < len {
            prev.update(last.0 as int, ok_value(last.1))
        } else {
            prev
        }
    }
}

/// The contents of the filled slots, in slot order.
pub open spec fn successes<T>(slots: Seq<Option<T>>) -> Seq<T>
    decreases slots.len(),
{
    if slots.len() == 0 {
        Seq::empty()
    } else {
        let rest = successes(slots.skip(1));
        match slots[0] {
            Some(t) => seq![t] + rest,
            None => rest,
        }
    }
}

proof fn lemma_placed_len<T, E>(len: nat, outcomes: Seq<(usize, Result<T, E>)>)
    ensures
        placed(len, outcomes).len() == len,
    decreases outcomes.len(),
{
    if outcomes.len() > 0 {
        lemma_placed_len(len, outcomes.drop_last());
    }
}

/// Joins the outcomes of all tasks of a cycle over `len` candidates, each
/// paired with the rank of its id: the records of the successful tasks in
/// rank order, whatever order the outcomes arrived in; failed tasks are left
/// out.
pub fn aggregate<T, E>(len: usize, outcomes: Vec<(usize, Result<T, E>)>) -> (r: Vec<T>)
    requires
        forall|i: int| 0 <= i < outcomes@.len() ==> (#[trigger] outcomes@[i]).0 < len,
    ensures
        r@ == successes(placed(len as nat, outcomes@)),
{
    let mut slots: Vec<Option<T>> = Vec::new();
    let mut i: usize = 0;
    while i < len
        invariant
            i <= len,
            slots@ == Seq::new(i as nat, |k: int| None::<T>),
        decreases len - i,
    {
        slots.push(None);
        i += 1;
        assert(slots@ =~= Seq::new(i as nat, |k: int| None::<T>));
    }
    let ghost all = outcomes@;
    assert(all.take(0) =~= Seq::<(usize, Result<T, E>)>::empty());
    assert(slots@ =~= placed(len as nat, all.take(0)));
    let mut outcomes = outcomes;
    let ghost mut done: int = 0;
    while outcomes.len() > 0
        invariant
            0 <= done <= all.len(),
            outcomes@ == all.skip(done),
            slots@ == placed(len as nat, all.take(done)),
            forall|i: int| 0 <= i < all.len() ==> (#[trigger] all[i]).0 < len,
        decreases outcomes@.len(),
    {
        proof {
            lemma_placed_len(len as nat, all.take(done));
            assert(outcomes@[0] == all[done]);
        }
        let (rank, outcome) = outcomes.remove(0);
        match outcome {
            Ok(t) => slots.set(rank, Some(t)),
            Err(_) => slots.set(rank, None),
        }
        proof {
            assert(all.take(done + 1).drop_last() =~= all.take(done));
            assert(all.take(done + 1).last() == all[done]);
            done = done + 1;
            assert(outcomes@ =~= all.skip(done));
        }
    }
    assert(all.take(done) =~= all);
    let ghost full = slots@;
    let mut out: Vec<T> = Vec::new();
    assert(out@ + successes(slots@) =~= successes(full));
    while slots.len() > 0
        invariant
            out@ + successes(slots@) == successes(full),
        decreases slots@.len(),
    {
        let ghost before = slots@;
        let s = slots.remove(0);
        assert(slots@ =~= before.skip(1));
        match s {
            Some(t) => {
                out.push(t);
                assert(out@ + successes(slots@) =~= successes(full));
            },
            None => {},
        }
    }
    assert(successes(slots@) =~= Seq::<T>::empty());
    assert(out@ =~= successes(full));
    out
}

} // verus!
