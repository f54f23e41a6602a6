//! Sequences built by visiting positions `0..n` in order and keeping the
//! outputs that are present: the shape of every change set of this crate.
use vstd::prelude::*;

verus! {

/// The outputs `f(0), ..., f(n - 1)` that are present, in order.
pub open spec fn gather<T>(f: spec_fn(int) -> Option<T>, n: int) -> Seq<T>
    decreases n,
{
    if n <= 0 {
        Seq::empty()
    } else {
        let prefix = gather(f, n - 1);
        match f(n - 1) {
            Some(x) => prefix.push(x),
            None => prefix,
        }
    }
}

/// An element is gathered exactly when some visited position outputs it.
pub proof fn lemma_gather_contains<T>(f: spec_fn(int) -> Option<T>, n: int, x: T)
    ensures
        gather(f, n).contains(x) <==> exists|i: int| 0 <= i < n && #[trigger] f(i) == Some(x),
    decreases n,
{
    if n > 0 {
        lemma_gather_contains(f, n - 1, x);
        let prefix = gather(f, n - 1);
        match f(n - 1) {
            Some(y) => {
                if prefix.push(y).contains(x) {
                    let k = choose|k: int| 0 <= k < prefix.push(y).len() && prefix.push(y)[k] == x;
                    if k < prefix.len() {
                        assert(prefix.contains(x));
                    }
                }
                if exists|i: int| 0 <= i < n && #[trigger] f(i) == Some(x) {
                    let i = choose|i: int| 0 <= i < n && #[trigger] f(i) == Some(x);
                    if i < n - 1 {
                        assert(prefix.contains(x));
                        let k = choose|k: int| 0 <= k < prefix.len() && prefix[k] == x;
                        assert(prefix.push(y)[k] == x);
                    } else {
                        assert(prefix.push(y)[prefix.len() as int] == x);
                    }
                }
            },
            None => {},
        }
    }
}

/// Where no visited position outputs anything, nothing is gathered.
pub proof fn lemma_gather_none<T>(f: spec_fn(int) -> Option<T>, n: int)
    requires
        forall|i: int| 0 <= i < n ==> #[trigger] f(i) is None,
    ensures
        gather(f, n) == Seq::<T>::empty(),
    decreases n,
{
    if n > 0 {
        lemma_gather_none(f, n - 1);
    }
}

/// What holds of every output holds of every gathered element.
pub proof fn lemma_gather_forall<T>(f: spec_fn(int) -> Option<T>, n: int, p: spec_fn(T) -> bool)
    requires
        forall|i: int| 0 <= i < n && #[trigger] f(i) is Some ==> p(f(i)->0),
    ensures
        forall|k: int| 0 <= k < gather(f, n).len() ==> p(#[trigger] gather(f, n)[k]),
    decreases n,
{
    if n > 0 {
        lemma_gather_forall(f, n - 1, p);
        let q = gather(f, n - 1);
        assert forall|k: int| 0 <= k < gather(f, n).len() implies p(#[trigger] gather(f, n)[k]) by {
            if k < q.len() {
                assert(gather(f, n)[k] == q[k]);
            }
        }
    }
}

/// Each gathered element comes from an earlier position than the elements
/// gathered after it.
pub proof fn lemma_gather_origin<T>(f: spec_fn(int) -> Option<T>, n: int, a: int, b: int) -> (ij: (
    int,
    int,
))
    requires
        0 <= a < b < gather(f, n).len(),
    ensures
        0 <= ij.0 < ij.1 < n,
        f(ij.0) == Some(gather(f, n)[a]),
        f(ij.1) == Some(gather(f, n)[b]),
    decreases n,
{
    let q = gather(f, n - 1);
    if b < q.len() {
        assert(gather(f, n)[a] == q[a]);
        assert(gather(f, n)[b] == q[b]);
        let (i, j) = lemma_gather_origin(f, n - 1, a, b);
        (i, j)
    } else {
        assert(gather(f, n)[a] == q[a]);
        lemma_gather_contains(f, n - 1, q[a]);
        assert(q.contains(q[a]));
        let i = choose|i: int| 0 <= i < n - 1 && #[trigger] f(i) == Some(q[a]);
        (i, n - 1)
    }
}

/// A relation that holds between every earlier and later output holds
/// between every earlier and later gathered element.
pub proof fn lemma_gather_pairwise<T>(
    f: spec_fn(int) -> Option<T>,
    n: int,
    p: spec_fn(T, T) -> bool,
)
    requires
        forall|i: int, j: int|
            0 <= i < j < n && #[trigger] f(i) is Some && #[trigger] f(j) is Some ==> p(
                f(i)->0,
                f(j)->0,
            ),
    ensures
        forall|a: int, b: int|
            0 <= a < b < gather(f, n).len() ==> p(
                #[trigger] gather(f, n)[a],
                #[trigger] gather(f, n)[b],
            ),
{
    assert forall|a: int, b: int| 0 <= a < b < gather(f, n).len() implies p(
        #[trigger] gather(f, n)[a],
        #[trigger] gather(f, n)[b],
    ) by {
        let (i, j) = lemma_gather_origin(f, n, a, b);
        assert(f(i) is Some && f(j) is Some);
    }
}

/// Each gathered element comes from some position.
pub proof fn lemma_gather_source<T>(f: spec_fn(int) -> Option<T>, n: int, a: int) -> (i: int)
    requires
        0 <= a < gather(f, n).len(),
    ensures
        0 <= i < n,
        f(i) == Some(gather(f, n)[a]),
{
    let g = gather(f, n);
    assert(g.contains(g[a]));
    lemma_gather_contains(f, n, g[a]);
    choose|i: int| 0 <= i < n && #[trigger] f(i) == Some(g[a])
}

} // verus!
