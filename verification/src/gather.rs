//! Lists put together position by position.
use crate::types::{CheckId, IssueView};
use vstd::prelude::*;

verus! {

/// The lists that `f` gives for the positions below `n`, one after another.
pub open spec fn gathered<T>(n: nat, f: spec_fn(int) -> Seq<T>) -> Seq<T>
    decreases n,
{
    if n == 0 {
        seq![]
    } else {
        gathered((n - 1) as nat, f) + f(n - 1)
    }
}

/// The positions below `n` of which `p` holds, in order.
pub open spec fn picked(n: nat, p: spec_fn(int) -> bool) -> Seq<int>
    decreases n,
{
    if n == 0 {
        seq![]
    } else if p(n - 1) {
        picked((n - 1) as nat, p).push(n - 1)
    } else {
        picked((n - 1) as nat, p)
    }
}

/// The first position below `n` of which `p` holds, if there is one.
pub open spec fn earliest(n: nat, p: spec_fn(int) -> bool) -> Option<int>
    decreases n,
{
    if n == 0 {
        None
    } else {
        match earliest((n - 1) as nat, p) {
            Some(i) => Some(i),
            None => if p(n - 1) {
                Some(n - 1)
            } else {
                None
            },
        }
    }
}

/// The positions as mathematical integers.
pub open spec fn positions(v: Seq<usize>) -> Seq<int> {
    v.map_values(|k: usize| k as int)
}

/// Whether two elements of `s` differ.
pub open spec fn disagree<T>(s: Seq<T>) -> bool {
    exists|i: int, j: int| 0 <= i < s.len() && 0 <= j < s.len() && s[i] != s[j]
}

/// Whether every finding names `id` as its check.
pub open spec fn all_raised_by(s: Seq<IssueView>, id: CheckId) -> bool {
    forall|i: int| 0 <= i < s.len() ==> (#[trigger] s[i]).check_id == id
}

/// Elements differ exactly when one of them differs from the first.
pub proof fn lemma_disagree<T>(s: Seq<T>)
    ensures
        disagree(s) <==> exists|i: int| 0 <= i < s.len() && #[trigger] s[i] != s[0],
{
    if disagree(s) {
        let (i, j) = choose|i: int, j: int|
            0 <= i < s.len() && 0 <= j < s.len() && s[i] != s[j];
        assert(s[i] != s[0] || s[j] != s[0]);
    }
    if exists|i: int| 0 <= i < s.len() && #[trigger] s[i] != s[0] {
        let i = choose|i: int| 0 <= i < s.len() && #[trigger] s[i] != s[0];
        assert(s[i] != s[0]);
    }
}

/// Lists that agree position by position gather to the same list.
pub proof fn lemma_gathered_same<T>(
    n: nat,
    f: spec_fn(int) -> Seq<T>,
    g: spec_fn(int) -> Seq<T>,
)
    requires
        forall|i: int| 0 <= i < n ==> #[trigger] f(i) == g(i),
    ensures
        gathered(n, f) == gathered(n, g),
    decreases n,
{
    if n > 0 {
        lemma_gathered_same((n - 1) as nat, f, g);
        assert(f(n - 1) == g(n - 1));
    }
}

/// The positions below `m + n` gather to those below `m`, then the rest.
pub proof fn lemma_gathered_split<T>(
    m: nat,
    n: nat,
    f: spec_fn(int) -> Seq<T>,
    g: spec_fn(int) -> Seq<T>,
)
    requires
        forall|i: int| 0 <= i < n ==> #[trigger] g(i) == f(m + i),
    ensures
        gathered(m + n, f) == gathered(m, f) + gathered(n, g),
    decreases n,
{
    if n == 0 {
        assert(gathered(m, f) + gathered(0, g) =~= gathered(m, f));
    } else {
        lemma_gathered_split(m, (n - 1) as nat, f, g);
        assert(g(n - 1) == f(m + (n - 1)));
        assert(gathered(m, f) + gathered((n - 1) as nat, g) + g(n - 1) =~= gathered(m, f) + (
        gathered((n - 1) as nat, g) + g(n - 1)));
    }
}

/// A position that gives nothing can be taken out.
pub proof fn lemma_gathered_insert<T>(
    m: nat,
    n: nat,
    f: spec_fn(int) -> Seq<T>,
    g: spec_fn(int) -> Seq<T>,
)
    requires
        m <= n,
        f(m as int).len() == 0,
        forall|i: int| 0 <= i < m ==> #[trigger] g(i) == f(i),
        forall|i: int| m <= i < n ==> #[trigger] g(i) == f(i + 1),
    ensures
        gathered(n + 1, f) == gathered(n, g),
    decreases n,
{
    if n == m {
        lemma_gathered_same(m, g, f);
        assert(gathered(m, f) + f(m as int) =~= gathered(m, f));
    } else {
        lemma_gathered_insert(m, (n - 1) as nat, f, g);
        assert(g(n - 1) == f(n - 1 + 1));
    }
}

/// Where no position gives anything, nothing is gathered.
pub proof fn lemma_gathered_empty<T>(n: nat, f: spec_fn(int) -> Seq<T>)
    requires
        forall|i: int| 0 <= i < n ==> (#[trigger] f(i)).len() == 0,
    ensures
        gathered(n, f).len() == 0,
    decreases n,
{
    if n > 0 {
        lemma_gathered_empty((n - 1) as nat, f);
        assert(f(n - 1).len() == 0);
    }
}

/// Nothing is gathered exactly when no position gives anything.
pub proof fn lemma_gathered_none<T>(n: nat, f: spec_fn(int) -> Seq<T>)
    ensures
        gathered(n, f).len() == 0 <==> forall|i: int| 0 <= i < n ==> (#[trigger] f(i)).len() == 0,
    decreases n,
{
    if n > 0 {
        lemma_gathered_none((n - 1) as nat, f);
        if gathered(n, f).len() == 0 {
            assert(f(n - 1).len() == 0);
        }
    }
}

/// What is gathered has come from some position.
pub proof fn lemma_gathered_origin<T>(n: nat, f: spec_fn(int) -> Seq<T>, k: int) -> (at: (
    int,
    int,
))
    requires
        0 <= k < gathered(n, f).len(),
    ensures
        0 <= at.0 < n,
        0 <= at.1 < f(at.0).len(),
        f(at.0)[at.1] == gathered(n, f)[k],
    decreases n,
{
    let rest = gathered((n - 1) as nat, f);
    if k < rest.len() {
        lemma_gathered_origin((n - 1) as nat, f, k)
    } else {
        (n - 1, k - rest.len())
    }
}

/// What a position gives is gathered.
pub proof fn lemma_gathered_holds<T>(n: nat, f: spec_fn(int) -> Seq<T>, i: int, j: int)
    requires
        0 <= i < n,
        0 <= j < f(i).len(),
    ensures
        gathered(n, f).contains(f(i)[j]),
    decreases n,
{
    let rest = gathered((n - 1) as nat, f);
    if i < n - 1 {
        lemma_gathered_holds((n - 1) as nat, f, i, j);
        let k = choose|k: int| 0 <= k < rest.len() && rest[k] == f(i)[j];
        assert(gathered(n, f)[k] == f(i)[j]);
    } else {
        assert(gathered(n, f)[rest.len() + j] == f(i)[j]);
    }
}

/// Findings that all come from one check gather to findings of that check.
pub proof fn lemma_gathered_raised_by(n: nat, f: spec_fn(int) -> Seq<IssueView>, id: CheckId)
    requires
        forall|i: int| 0 <= i < n ==> all_raised_by(#[trigger] f(i), id),
    ensures
        all_raised_by(gathered(n, f), id),
    decreases n,
{
    if n > 0 {
        lemma_gathered_raised_by((n - 1) as nat, f, id);
        assert(all_raised_by(f(n - 1), id));
    }
}

/// The picked positions are those below `n` of which `p` holds, ascending.
pub proof fn lemma_picked(n: nat, p: spec_fn(int) -> bool)
    ensures
        picked(n, p).len() <= n,
        forall|k: int|
            0 <= k < picked(n, p).len() ==> 0 <= #[trigger] picked(n, p)[k] < n && p(
                picked(n, p)[k],
            ),
        forall|k: int, l: int|
            0 <= k < l < picked(n, p).len() ==> #[trigger] picked(n, p)[k] < #[trigger] picked(
                n,
                p,
            )[l],
        forall|i: int| 0 <= i < n && p(i) ==> #[trigger] picked(n, p).contains(i),
    decreases n,
{
    if n > 0 {
        let less = picked((n - 1) as nat, p);
        lemma_picked((n - 1) as nat, p);
        let all = picked(n, p);
        assert forall|i: int| 0 <= i < n && p(i) implies #[trigger] all.contains(i) by {
            if i < n - 1 {
                assert(less.contains(i));
                let k = choose|k: int| 0 <= k < less.len() && less[k] == i;
                assert(all[k] == i);
            } else {
                assert(all[all.len() - 1] == i);
            }
        }
    }
}

/// An element that is not picked can be taken out.
pub proof fn lemma_picked_insert<T>(
    a: Seq<T>,
    x: T,
    b: Seq<T>,
    p: spec_fn(int) -> bool,
    q: spec_fn(int) -> bool,
    n: nat,
)
    requires
        a.len() <= n <= a.len() + b.len(),
        !p(a.len() as int),
        forall|i: int| 0 <= i < a.len() ==> #[trigger] q(i) == p(i),
        forall|i: int| a.len() <= i < n ==> #[trigger] q(i) == p(i + 1),
    ensures
        picked(n + 1, p).map_values(|i: int| (a.push(x) + b)[i]) == picked(n, q).map_values(
            |i: int| (a + b)[i],
        ),
    decreases n,
{
    let more = |i: int| (a.push(x) + b)[i];
    let less = |i: int| (a + b)[i];
    if n == a.len() {
        lemma_picked_same(n, q, p);
        lemma_picked(n, p);
        assert(picked(n + 1, p) == picked(n, p));
        assert(picked(n, p).map_values(more) =~= picked(n, q).map_values(less));
    } else {
        lemma_picked_insert(a, x, b, p, q, (n - 1) as nat);
        assert(q(n - 1) == p(n - 1 + 1));
        assert((a.push(x) + b)[n as int] == (a + b)[n - 1]);
        let m = picked(n, p);
        let k = picked((n - 1) as nat, q);
        assert(m.push(n as int).map_values(more) =~= m.map_values(more).push(more(n as int)));
        assert(k.push(n - 1).map_values(less) =~= k.map_values(less).push(less(n - 1)));
    }
}

/// Conditions that agree below `n` pick the same positions.
pub proof fn lemma_picked_same(n: nat, p: spec_fn(int) -> bool, q: spec_fn(int) -> bool)
    requires
        forall|i: int| 0 <= i < n ==> #[trigger] p(i) == q(i),
    ensures
        picked(n, p) == picked(n, q),
    decreases n,
{
    if n > 0 {
        lemma_picked_same((n - 1) as nat, p, q);
        assert(p(n - 1) == q(n - 1));
    }
}

/// The earliest position is one of which `p` holds, and the first.
pub proof fn lemma_earliest(n: nat, p: spec_fn(int) -> bool)
    ensures
        earliest(n, p) matches Some(i) ==> 0 <= i < n && p(i),
        earliest(n, p) matches Some(i) ==> forall|j: int| 0 <= j < i ==> !#[trigger] p(j),
        earliest(n, p) is None ==> forall|j: int| 0 <= j < n ==> !#[trigger] p(j),
    decreases n,
{
    if n > 0 {
        lemma_earliest((n - 1) as nat, p);
    }
}

/// A position of which `p` holds, and before which it does not, is the
/// earliest.
pub proof fn lemma_earliest_is(n: nat, p: spec_fn(int) -> bool, i: int)
    requires
        0 <= i < n,
        p(i),
        forall|j: int| 0 <= j < i ==> !#[trigger] p(j),
    ensures
        earliest(n, p) == Some(i),
{
    lemma_earliest(n, p);
}

} // verus!
