use vstd::prelude::*;

verus! {

/// How many of the integers `0, 1, .., n - 1` satisfy `p`.
pub open spec fn count_below(n: int, p: spec_fn(int) -> bool) -> nat
    decreases n,
{
    if n <= 0 {
        0
    } else {
        count_below(n - 1, p) + if p(n - 1) { 1nat } else { 0nat }
    }
}

/// The `r`-th integer below `n` that satisfies `p`, counting from zero: the one with
/// exactly `r` satisfying integers before it.
pub open spec fn nth_where(n: int, p: spec_fn(int) -> bool, r: int) -> int {
    choose|i: int| 0 <= i < n && p(i) && count_below(i, p) == r
}

/// Counting grows with the range.
pub proof fn lemma_count_monotone(m: int, n: int, p: spec_fn(int) -> bool)
    requires
        m <= n,
    ensures
        count_below(m, p) <= count_below(n, p),
    decreases n - m,
{
    if m < n {
        lemma_count_monotone(m, n - 1, p);
    }
}

/// Two predicates that agree below `n` have the same count below `n`.
pub proof fn lemma_count_agree(n: int, p: spec_fn(int) -> bool, q: spec_fn(int) -> bool)
    requires
        forall|i: int| 0 <= i < n ==> #[trigger] p(i) == q(i),
    ensures
        count_below(n, p) == count_below(n, q),
    decreases n,
{
    if n > 0 {
        lemma_count_agree(n - 1, p, q);
    }
}

/// Where no integer below `n` satisfies `p`, the count is zero.
pub proof fn lemma_count_none(n: int, p: spec_fn(int) -> bool)
    requires
        forall|i: int| 0 <= i < n ==> !#[trigger] p(i),
    ensures
        count_below(n, p) == 0,
    decreases n,
{
    if n > 0 {
        lemma_count_none(n - 1, p);
    }
}

/// Where every integer below `n` satisfies `p`, the count is `n`.
pub proof fn lemma_count_all(n: int, p: spec_fn(int) -> bool)
    requires
        0 <= n,
        forall|i: int| 0 <= i < n ==> #[trigger] p(i),
    ensures
        count_below(n, p) == n,
    decreases n,
{
    if n > 0 {
        lemma_count_all(n - 1, p);
    }
}

/// Where `q` holds at `k` and `p` does not, and the two agree everywhere else below `n`,
/// `q` counts one more than `p` once the range reaches past `k`, and the same before.
pub proof fn lemma_count_one_more(n: int, p: spec_fn(int) -> bool, q: spec_fn(int) -> bool, k: int)
    requires
        0 <= k,
        !p(k),
        q(k),
        forall|i: int| 0 <= i < n && i != k ==> #[trigger] p(i) == q(i),
    ensures
        count_below(n, q) == count_below(n, p) + if k < n { 1nat } else { 0nat },
    decreases n,
{
    if n > 0 {
        lemma_count_one_more(n - 1, p, q, k);
    }
}

/// Every rank below the count is taken by some integer of the range.
pub proof fn lemma_rank_exists(n: int, p: spec_fn(int) -> bool, r: int) -> (i: int)
    requires
        0 <= r < count_below(n, p),
    ensures
        0 <= i < n,
        p(i),
        count_below(i, p) == r,
    decreases n,
{
    if p(n - 1) && count_below(n - 1, p) == r {
        n - 1
    } else {
        lemma_rank_exists(n - 1, p, r)
    }
}

/// No two satisfying integers share a rank.
pub proof fn lemma_rank_unique(p: spec_fn(int) -> bool, i: int, j: int)
    requires
        0 <= i,
        0 <= j,
        p(i),
        p(j),
        count_below(i, p) == count_below(j, p),
    ensures
        i == j,
{
    if i < j {
        lemma_count_monotone(i + 1, j, p);
    } else if j < i {
        lemma_count_monotone(j + 1, i, p);
    }
}

/// The integer found at rank `r` is the one that `nth_where` names.
pub proof fn lemma_nth_where_is(n: int, p: spec_fn(int) -> bool, r: int, i: int)
    requires
        0 <= i < n,
        p(i),
        count_below(i, p) == r,
    ensures
        nth_where(n, p, r) == i,
{
    let j = nth_where(n, p, r);
    lemma_rank_unique(p, i, j);
}

} // verus!
