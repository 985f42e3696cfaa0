//! The order of search hits: by weight, the heaviest first, and by frame
//! id among equal weights, the youngest first.

use vstd::prelude::*;

verus! {

/// The place of a hit in the order: its weight and its frame id.
pub type RankKey = (u64, u64);

/// Whether `a` comes strictly before `b` among the hits.
pub open spec fn outranks(a: RankKey, b: RankKey) -> bool {
    a.0 > b.0 || (a.0 == b.0 && a.1 > b.1)
}

/// The place of the frame `i`, whose weight is `weights[i]`.
pub open spec fn rank_key(weights: Seq<Option<u64>>, i: int) -> RankKey {
    (weights[i]->0, i as u64)
}

/// The frame `i` is a hit and comes strictly behind `after`.
pub open spec fn eligible(weights: Seq<Option<u64>>, after: Option<RankKey>, i: int) -> bool {
    &&& 0 <= i < weights.len()
    &&& weights[i] is Some
    &&& after is Some ==> outranks(after->0, rank_key(weights, i))
}

/// The frame `i` is the first hit behind `after`.
pub open spec fn is_best(weights: Seq<Option<u64>>, after: Option<RankKey>, i: int) -> bool {
    &&& eligible(weights, after, i)
    &&& forall|j: int| #[trigger]
        eligible(weights, after, j) ==> !outranks(rank_key(weights, j), rank_key(weights, i))
}

/// Some hit comes behind `after`.
pub open spec fn has_best(weights: Seq<Option<u64>>, after: Option<RankKey>) -> bool {
    exists|i: int| is_best(weights, after, i)
}

/// The first hit behind `after`.
pub open spec fn best_of(weights: Seq<Option<u64>>, after: Option<RankKey>) -> int {
    choose|i: int| is_best(weights, after, i)
}

/// The first `n` hits behind `after`, in order.
pub open spec fn ranked(weights: Seq<Option<u64>>, after: Option<RankKey>, n: nat) -> Seq<int>
    decreases n,
{
    if n == 0 || !has_best(weights, after) {
        Seq::empty()
    } else {
        let i = best_of(weights, after);
        seq![i] + ranked(weights, Some(rank_key(weights, i)), (n - 1) as nat)
    }
}

/// There is only one first hit behind a place.
pub proof fn lemma_best_unique(weights: Seq<Option<u64>>, after: Option<RankKey>, i: int)
    requires
        weights.len() <= u64::MAX,
        is_best(weights, after, i),
    ensures
        has_best(weights, after),
        best_of(weights, after) == i,
{
    let j = best_of(weights, after);
    assert(is_best(weights, after, j));
    assert(eligible(weights, after, i));
    assert(eligible(weights, after, j));
}

/// Where some hit comes behind a place, one of them is the first.
pub proof fn lemma_best_exists(weights: Seq<Option<u64>>, after: Option<RankKey>, i: int)
    requires
        weights.len() <= u64::MAX,
        eligible(weights, after, i),
    ensures
        has_best(weights, after),
{
    lemma_best_among(weights, after, i, weights.len() as int);
    let b = choose|b: int| best_among(weights, after, b, weights.len() as int);
    assert(is_best(weights, after, b)) by {
        assert forall|j: int| #[trigger] eligible(weights, after, j) implies !outranks(
            rank_key(weights, j),
            rank_key(weights, b),
        ) by {}
    }
}

/// The frame `b` is the first hit behind `after` among the frames below `k`.
pub open spec fn best_among(weights: Seq<Option<u64>>, after: Option<RankKey>, b: int, k: int)
    -> bool {
    &&& eligible(weights, after, b)
    &&& b < k
    &&& forall|j: int|
        j < k && #[trigger] eligible(weights, after, j) ==> !outranks(
            rank_key(weights, j),
            rank_key(weights, b),
        )
}

/// Among the frames below `k`, where one is a hit behind `after`, one is
/// the first of them.
pub proof fn lemma_best_among(weights: Seq<Option<u64>>, after: Option<RankKey>, i: int, k: int)
    requires
        weights.len() <= u64::MAX,
        eligible(weights, after, i),
        i < k <= weights.len(),
    ensures
        exists|b: int| best_among(weights, after, b, k),
    decreases k,
{
    let below = k - 1;
    if exists|j: int| j < below && eligible(weights, after, j) {
        let j = choose|j: int| j < below && eligible(weights, after, j);
        lemma_best_among(weights, after, j, below);
        let b = choose|b: int| best_among(weights, after, b, below);
        if eligible(weights, after, k - 1) && outranks(
            rank_key(weights, k - 1),
            rank_key(weights, b),
        ) {
            assert(best_among(weights, after, k - 1, k));
        } else {
            assert(best_among(weights, after, b, k));
        }
    } else {
        assert(i == k - 1);
        assert(best_among(weights, after, i, k));
    }
}

/// No hit is passed over: a hit behind `after` is among the first `n` hits
/// behind `after`, or there are `n` of those and each comes before it.
pub proof fn lemma_ranked_reaches(
    weights: Seq<Option<u64>>,
    after: Option<RankKey>,
    n: nat,
    i: int,
)
    requires
        weights.len() <= u64::MAX,
        eligible(weights, after, i),
    ensures
        ranked(weights, after, n).contains(i) || (ranked(weights, after, n).len() == n
            && forall|k: int|
            0 <= k < n ==> 0 <= (#[trigger] ranked(weights, after, n)[k]) < weights.len()
                && outranks(
                rank_key(weights, ranked(weights, after, n)[k]),
                rank_key(weights, i),
            )),
    decreases n,
{
    let all = ranked(weights, after, n);
    if n == 0 {
    } else {
        lemma_best_exists(weights, after, i);
        let j = best_of(weights, after);
        assert(is_best(weights, after, j));
        let next = Some(rank_key(weights, j));
        let rest = ranked(weights, next, (n - 1) as nat);
        assert(all == seq![j] + rest);
        if j == i {
            assert(all[0] == i);
        } else {
            assert(eligible(weights, after, i));
            assert(!outranks(rank_key(weights, i), rank_key(weights, j)));
            assert(outranks(rank_key(weights, j), rank_key(weights, i)));
            assert(eligible(weights, next, i));
            lemma_ranked_reaches(weights, next, (n - 1) as nat, i);
            if rest.contains(i) {
                let k = choose|k: int| 0 <= k < rest.len() && rest[k] == i;
                assert(all[k + 1] == i);
            } else {
                assert forall|k: int| 0 <= k < n implies 0 <= (#[trigger] all[k]) < weights.len()
                    && outranks(rank_key(weights, all[k]), rank_key(weights, i)) by {
                    if k > 0 {
                        assert(all[k] == rest[k - 1]);
                    }
                }
            }
        }
    }
}

/// Every frame among the first hits behind a place is a hit.
pub proof fn lemma_ranked_hits(weights: Seq<Option<u64>>, after: Option<RankKey>, n: nat, k: int)
    requires
        0 <= k < ranked(weights, after, n).len(),
    ensures
        eligible(weights, after, ranked(weights, after, n)[k]),
    decreases n,
{
    if n == 0 || !has_best(weights, after) {
    } else {
        let i = best_of(weights, after);
        assert(is_best(weights, after, i));
        if k > 0 {
            lemma_ranked_hits(weights, Some(rank_key(weights, i)), (n - 1) as nat, k - 1);
            assert(eligible(weights, Some(rank_key(weights, i)), ranked(weights, after, n)[k]));
        }
    }
}

/// Every hit of a list comes before the hits that follow it, and behind
/// the place that the list starts from.
pub proof fn lemma_ranked_order(
    weights: Seq<Option<u64>>,
    after: Option<RankKey>,
    n: nat,
    j: int,
    k: int,
)
    requires
        0 <= j <= k < ranked(weights, after, n).len(),
    ensures
        j < k ==> outranks(
            rank_key(weights, ranked(weights, after, n)[j]),
            rank_key(weights, ranked(weights, after, n)[k]),
        ),
        j == k ==> ranked(weights, after, n)[j] == ranked(weights, after, n)[k],
    decreases n,
{
    if n == 0 || !has_best(weights, after) {
    } else {
        let i = best_of(weights, after);
        assert(is_best(weights, after, i));
        let next = Some(rank_key(weights, i));
        let rest = ranked(weights, next, (n - 1) as nat);
        let all = ranked(weights, after, n);
        assert(all == seq![i] + rest);
        if j < k {
            assert(all[k] == rest[k - 1]);
            if j == 0 {
                lemma_ranked_hits(weights, next, (n - 1) as nat, k - 1);
            } else {
                assert(all[j] == rest[j - 1]);
                lemma_ranked_order(weights, next, (n - 1) as nat, j - 1, k - 1);
            }
        }
    }
}

/// The number of hits among the frames below `k` that come behind `after`.
pub open spec fn hits_behind(weights: Seq<Option<u64>>, after: Option<RankKey>, k: int) -> nat
    decreases k,
{
    if k <= 0 {
        0
    } else {
        hits_behind(weights, after, k - 1) + if eligible(weights, after, k - 1) {
            1nat
        } else {
            0nat
        }
    }
}

/// Behind a hit there are fewer hits than behind the place that it comes
/// behind: at least the hit itself is no longer among them.
pub proof fn lemma_hits_behind_step(
    weights: Seq<Option<u64>>,
    after: Option<RankKey>,
    j: int,
    k: int,
)
    requires
        weights.len() <= u64::MAX,
        eligible(weights, after, j),
        0 <= k <= weights.len(),
    ensures
        hits_behind(weights, Some(rank_key(weights, j)), k) + (if j < k {
            1nat
        } else {
            0nat
        }) <= hits_behind(weights, after, k),
    decreases k,
{
    if k > 0 {
        lemma_hits_behind_step(weights, after, j, k - 1);
        if eligible(weights, Some(rank_key(weights, j)), k - 1) {
            assert(eligible(weights, after, k - 1));
            assert(k - 1 != j);
        }
    }
}

/// Where a frame below `k` is a hit behind `after`, the hits behind `after`
/// below `k` are one at least.
pub proof fn lemma_hits_behind_some(
    weights: Seq<Option<u64>>,
    after: Option<RankKey>,
    i: int,
    k: int,
)
    requires
        eligible(weights, after, i),
        i < k,
    ensures
        hits_behind(weights, after, k) >= 1,
    decreases k,
{
    if i < k - 1 {
        lemma_hits_behind_some(weights, after, i, k - 1);
    }
}

/// The first hits behind a place are no more than the hits behind it, and
/// fewer where one of the hits behind it is not among them.
pub proof fn lemma_ranked_count(weights: Seq<Option<u64>>, after: Option<RankKey>, n: nat)
    requires
        weights.len() <= u64::MAX,
    ensures
        ranked(weights, after, n).len() <= hits_behind(weights, after, weights.len() as int),
        forall|i: int|
            eligible(weights, after, i) && !ranked(weights, after, n).contains(i) && ranked(
                weights,
                after,
                n,
            ).len() == n ==> n < hits_behind(weights, after, weights.len() as int),
    decreases n,
{
    let all = ranked(weights, after, n);
    let total = weights.len() as int;
    if n == 0 {
        assert forall|i: int| eligible(weights, after, i) implies 0 < hits_behind(
            weights,
            after,
            total,
        ) by {
            lemma_hits_behind_some(weights, after, i, total);
        }
    } else if !has_best(weights, after) {
    } else {
        let j = best_of(weights, after);
        assert(is_best(weights, after, j));
        let next = Some(rank_key(weights, j));
        let rest = ranked(weights, next, (n - 1) as nat);
        assert(all == seq![j] + rest);
        lemma_ranked_count(weights, next, (n - 1) as nat);
        lemma_hits_behind_step(weights, after, j, total);
        assert forall|i: int|
            eligible(weights, after, i) && !all.contains(i) && all.len() == n implies n
            < hits_behind(weights, after, total) by {
            assert(all[0] == j);
            assert(i != j);
            assert(!outranks(rank_key(weights, i), rank_key(weights, j)));
            assert(eligible(weights, next, i));
            assert(!rest.contains(i)) by {
                if rest.contains(i) {
                    let k = choose|k: int| 0 <= k < rest.len() && rest[k] == i;
                    assert(all[k + 1] == i);
                }
            }
        }
    }
}

/// A page as long as there are hits holds every hit.
pub proof fn lemma_ranked_complete(weights: Seq<Option<u64>>, n: nat, i: int)
    requires
        weights.len() <= u64::MAX,
        0 <= i < weights.len(),
        weights[i] is Some,
        n >= hits_behind(weights, None, weights.len() as int),
    ensures
        ranked(weights, None, n).contains(i),
{
    lemma_ranked_count(weights, None, n);
    lemma_ranked_reaches(weights, None, n, i);
    assert(eligible(weights, None, i));
}

/// The first `a + b` hits behind a place are the first `a`, followed,
/// where there are that many, by the first `b` behind the last of them.
pub proof fn lemma_ranked_split(weights: Seq<Option<u64>>, after: Option<RankKey>, a: nat, b: nat)
    requires
        a > 0,
    ensures
        ranked(weights, after, a + b) == (if ranked(weights, after, a).len() == a {
            ranked(weights, after, a) + ranked(
                weights,
                Some(rank_key(weights, ranked(weights, after, a).last())),
                b,
            )
        } else {
            ranked(weights, after, a)
        }),
    decreases a,
{
    let whole = ranked(weights, after, a + b);
    let first = ranked(weights, after, a);
    if !has_best(weights, after) {
    } else {
        let i = best_of(weights, after);
        let here = Some(rank_key(weights, i));
        let rest_whole = ranked(weights, here, (a + b - 1) as nat);
        let rest_first = ranked(weights, here, (a - 1) as nat);
        assert(whole == seq![i] + rest_whole);
        assert(first == seq![i] + rest_first);
        if a == 1 {
            assert(rest_first =~= Seq::<int>::empty());
            assert(first.last() == i);
            assert(whole =~= first + ranked(weights, here, b));
        } else {
            lemma_ranked_split(weights, here, (a - 1) as nat, b);
            lemma_ranked_len(weights, here, (a - 1) as nat);
            if rest_first.len() == a - 1 {
                assert(first.last() == rest_first.last());
                assert(whole =~= first + ranked(
                    weights,
                    Some(rank_key(weights, first.last())),
                    b,
                ));
            } else {
                assert(whole =~= first);
            }
        }
    }
}

/// No more hits are listed than asked for.
pub proof fn lemma_ranked_len(weights: Seq<Option<u64>>, after: Option<RankKey>, n: nat)
    ensures
        ranked(weights, after, n).len() <= n,
    decreases n,
{
    if n == 0 || !has_best(weights, after) {
    } else {
        lemma_ranked_len(
            weights,
            Some(rank_key(weights, best_of(weights, after))),
            (n - 1) as nat,
        );
    }
}

/// Whether `a` comes strictly before `b` among the hits.
pub fn ranks_before(a: RankKey, b: RankKey) -> (r: bool)
    ensures
        r == outranks(a, b),
{
    a.0 > b.0 || (a.0 == b.0 && a.1 > b.1)
}

/// The first hit behind `after`, found by one pass over the weights.
pub fn next_best(weights: &Vec<Option<u64>>, after: Option<RankKey>) -> (r: Option<usize>)
    ensures
        match r {
            Some(i) => is_best(weights@, after, i as int),
            None => !has_best(weights@, after),
        },
{
    let mut best: Option<usize> = None;
    let mut i: usize = 0;
    while i < weights.len()
        invariant
            i <= weights.len(),
            match best {
                Some(b) => b < i && eligible(weights@, after, b as int) && forall|j: int|
                    0 <= j < i && #[trigger] eligible(weights@, after, j) ==> !outranks(
                        rank_key(weights@, j),
                        rank_key(weights@, b as int),
                    ),
                None => forall|j: int| 0 <= j < i ==> !eligible(weights@, after, j),
            },
        decreases weights.len() - i,
    {
        match weights[i] {
            Some(w) => {
                let key: RankKey = (w, i as u64);
                let behind: bool = match after {
                    Some(a) => ranks_before(a, key),
                    None => true,
                };
                if behind {
                    let better: bool = match best {
                        Some(b) => match weights[b] {
                            Some(wb) => ranks_before(key, (wb, b as u64)),
                            None => true,
                        },
                        None => true,
                    };
                    if better {
                        best = Some(i);
                    }
                }
            },
            None => {},
        }
        i = i + 1;
    }
    best
}

} // verus!
