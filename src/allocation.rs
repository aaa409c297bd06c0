//! The allocation rule over a row of effective usages.
//!
//! `open` marks the keys that a selector admits and that are not cooling
//! down; a key is a candidate when it is open and below the limit. One
//! acquisition charges the first candidate of least usage; a bulk
//! acquisition repeats that step, one slot at a time.
use vstd::prelude::*;

verus! {

/// Key `i` can take one more use.
pub open spec fn is_candidate(u: Seq<int>, open: Seq<bool>, limit: int, i: int) -> bool {
    0 <= i < u.len() && i < open.len() && open[i] && u[i] < limit
}

/// The first candidate of least usage among the first `n` keys.
pub open spec fn least_within(u: Seq<int>, open: Seq<bool>, limit: int, n: nat) -> Option<int>
    decreases n,
{
    if n == 0 {
        None
    } else {
        let i = n - 1;
        let prev = least_within(u, open, limit, (n - 1) as nat);
        if is_candidate(u, open, limit, i) && (prev is None || u[i] < u[prev->0]) {
            Some(i)
        } else {
            prev
        }
    }
}

/// The first candidate of least usage, if there is a candidate.
pub open spec fn least_candidate(u: Seq<int>, open: Seq<bool>, limit: int) -> Option<int> {
    least_within(u, open, limit, u.len())
}

/// Hands out up to `n` slots one at a time, each to the current least-used
/// candidate. Gives the usages afterwards and the index charged for each slot.
pub open spec fn water_fill(u: Seq<int>, open: Seq<bool>, limit: int, n: nat) -> (Seq<int>, Seq<int>)
    decreases n,
{
    if n == 0 {
        (u, Seq::empty())
    } else {
        match least_candidate(u, open, limit) {
            None => (u, Seq::empty()),
            Some(i) => {
                let rest = water_fill(u.update(i, u[i] + 1), open, limit, (n - 1) as nat);
                (rest.0, seq![i] + rest.1)
            },
        }
    }
}

/// Sum of the remaining capacity of the candidates among the first `n` keys.
pub open spec fn capacity_within(u: Seq<int>, open: Seq<bool>, limit: int, n: nat) -> int
    decreases n,
{
    if n == 0 {
        0
    } else {
        let i = n - 1;
        capacity_within(u, open, limit, (n - 1) as nat) + if is_candidate(u, open, limit, i) {
            limit - u[i]
        } else {
            0
        }
    }
}

/// Total remaining capacity of all candidates.
pub open spec fn total_capacity(u: Seq<int>, open: Seq<bool>, limit: int) -> int {
    capacity_within(u, open, limit, u.len())
}

proof fn lemma_least_within(u: Seq<int>, open: Seq<bool>, limit: int, n: nat)
    requires
        n <= u.len(),
    ensures
        match least_within(u, open, limit, n) {
            None => forall|j: int| 0 <= j < n ==> !is_candidate(u, open, limit, j),
            Some(i) => {
                &&& 0 <= i < n
                &&& is_candidate(u, open, limit, i)
                &&& forall|j: int| 0 <= j < n && is_candidate(u, open, limit, j) ==> u[i] <= u[j]
                &&& forall|j: int| 0 <= j < i && is_candidate(u, open, limit, j) ==> u[i] < u[j]
            },
        },
    decreases n,
{
    if n > 0 {
        lemma_least_within(u, open, limit, (n - 1) as nat);
    }
}

/// The least candidate is a candidate, no candidate has less usage, and no
/// earlier candidate has as little; when there is none, no key is a candidate.
pub proof fn lemma_least_candidate(u: Seq<int>, open: Seq<bool>, limit: int)
    ensures
        match least_candidate(u, open, limit) {
            None => forall|j: int| !is_candidate(u, open, limit, j),
            Some(i) => {
                &&& is_candidate(u, open, limit, i)
                &&& forall|j: int| is_candidate(u, open, limit, j) ==> u[i] <= u[j]
                &&& forall|j: int| 0 <= j < i && is_candidate(u, open, limit, j) ==> u[i] < u[j]
            },
        },
{
    lemma_least_within(u, open, limit, u.len());
}

proof fn lemma_capacity_nonneg(u: Seq<int>, open: Seq<bool>, limit: int, n: nat)
    requires
        n <= u.len(),
    ensures
        capacity_within(u, open, limit, n) >= 0,
        capacity_within(u, open, limit, n) == 0 <==> forall|j: int|
            0 <= j < n ==> !is_candidate(u, open, limit, j),
    decreases n,
{
    if n > 0 {
        lemma_capacity_nonneg(u, open, limit, (n - 1) as nat);
    }
}

proof fn lemma_capacity_step(u: Seq<int>, open: Seq<bool>, limit: int, n: nat, i: int)
    requires
        n <= u.len(),
        is_candidate(u, open, limit, i),
    ensures
        capacity_within(u.update(i, u[i] + 1), open, limit, n) == capacity_within(u, open, limit, n)
            - if i < n {
            1int
        } else {
            0
        },
    decreases n,
{
    if n > 0 {
        lemma_capacity_step(u, open, limit, (n - 1) as nat, i);
    }
}

/// Bulk acquisition hands out exactly `min(n, total capacity)` slots, never
/// charges a key past the limit, and charges only candidates.
pub proof fn lemma_water_fill_count(u: Seq<int>, open: Seq<bool>, limit: int, n: nat)
    ensures
        ({
            let (after, picks) = water_fill(u, open, limit, n);
            let total = total_capacity(u, open, limit);
            &&& picks.len() == if n <= total {
                n as int
            } else {
                total
            }
            &&& after.len() == u.len()
            &&& forall|i: int| 0 <= i < u.len() ==> after[i] >= u[i]
            &&& forall|i: int|
                0 <= i < u.len() && after[i] != u[i] ==> is_candidate(u, open, limit, i) && after[i]
                    <= limit
            &&& forall|k: int| 0 <= k < picks.len() ==> is_candidate(u, open, limit, picks[k])
        }),
    decreases n,
{
    lemma_capacity_nonneg(u, open, limit, u.len());
    if n > 0 {
        lemma_least_candidate(u, open, limit);
        match least_candidate(u, open, limit) {
            None => {},
            Some(i) => {
                let u2 = u.update(i, u[i] + 1);
                lemma_capacity_step(u, open, limit, u.len(), i);
                lemma_water_fill_count(u2, open, limit, (n - 1) as nat);
                let (after, picks) = water_fill(u, open, limit, n);
                let rest = water_fill(u2, open, limit, (n - 1) as nat);
                assert forall|k: int| 0 <= k < picks.len() implies is_candidate(
                    u,
                    open,
                    limit,
                    picks[k],
                ) by {
                    if k > 0 {
                        assert(picks[k] == rest.1[k - 1]);
                        assert(is_candidate(u2, open, limit, picks[k]));
                    }
                }
                assert forall|j: int|
                    0 <= j < u.len() && after[j] != u[j] implies is_candidate(u, open, limit, j)
                    && after[j] <= limit by {
                    if j != i {
                        assert(after[j] != u2[j]);
                    }
                }
            },
        }
    }
}

/// Among keys that were candidates beforehand and whose usages differed by
/// at most one, bulk acquisition keeps every difference at most one.
pub proof fn lemma_water_fill_fair(u: Seq<int>, open: Seq<bool>, limit: int, n: nat)
    requires
        forall|i: int, j: int|
            is_candidate(u, open, limit, i) && is_candidate(u, open, limit, j) ==> u[i] - u[j] <= 1,
    ensures
        ({
            let after = water_fill(u, open, limit, n).0;
            forall|i: int, j: int|
                is_candidate(u, open, limit, i) && is_candidate(u, open, limit, j) ==> after[i]
                    - after[j] <= 1
        }),
    decreases n,
{
    if n > 0 {
        lemma_least_candidate(u, open, limit);
        match least_candidate(u, open, limit) {
            None => {},
            Some(p) => {
                let u2 = u.update(p, u[p] + 1);
                assert forall|i: int, j: int|
                    is_candidate(u2, open, limit, i) && is_candidate(
                        u2,
                        open,
                        limit,
                        j,
                    ) implies u2[i] - u2[j] <= 1 by {
                    assert(is_candidate(u, open, limit, i));
                    assert(is_candidate(u, open, limit, j));
                }
                lemma_water_fill_fair(u2, open, limit, (n - 1) as nat);
                lemma_water_fill_count(u2, open, limit, (n - 1) as nat);
                let after = water_fill(u, open, limit, n).0;
                assert forall|i: int, j: int|
                    is_candidate(u, open, limit, i) && is_candidate(
                        u,
                        open,
                        limit,
                        j,
                    ) implies after[i] - after[j] <= 1 by {
                    // A candidate that left the candidates sits at the limit,
                    // which no usage passes.
                    if !is_candidate(u2, open, limit, i) || !is_candidate(u2, open, limit, j) {
                        assert(after[i] <= limit);
                        assert(after[j] >= u2[j]);
                        if !is_candidate(u2, open, limit, j) {
                            assert(u2[j] >= limit);
                        } else {
                            assert(i == p);
                            assert(u2[i] == limit);
                            assert(u[i] == limit - 1);
                            assert(u[i] <= u[j]);
                        }
                    }
                }
            },
        }
    }
}

} // verus!
