//! Lists made of other lists by leaving some of their elements out.

use vstd::prelude::*;

verus! {

/// How many of the first so many elements of a list are wanted.
pub open spec fn tally<A>(from: Seq<A>, wanted: spec_fn(A) -> bool, n: int) -> int
    decreases n,
{
    if n <= 0 {
        0
    } else {
        tally(from, wanted, n - 1) + (if wanted(from[n - 1]) {
            1int
        } else {
            0int
        })
    }
}

/// Whether a list holds something for every wanted element of another and for
/// nothing else, in the other's order: as many as are wanted, and each where the
/// number of wanted ones before it says.
pub open spec fn picks<A, B>(
    from: Seq<A>,
    wanted: spec_fn(A) -> bool,
    made: spec_fn(A) -> B,
    out: Seq<B>,
) -> bool {
    &&& out.len() == tally(from, wanted, from.len() as int)
    &&& forall|i: int|
        0 <= i < from.len() && wanted(#[trigger] from[i]) ==> {
            &&& 0 <= tally(from, wanted, i) < out.len()
            &&& out[tally(from, wanted, i)] == made(from[i])
        }
}

/// A tally is at least nothing and at most everything, and it never shrinks.
pub proof fn lemma_tally<A>(from: Seq<A>, wanted: spec_fn(A) -> bool, n: int, m: int)
    requires
        0 <= n <= m,
    ensures
        0 <= tally(from, wanted, n) <= n,
        tally(from, wanted, n) <= tally(from, wanted, m),
    decreases m,
{
    if n < m {
        lemma_tally(from, wanted, n, m - 1);
    } else if n > 0 {
        lemma_tally(from, wanted, n - 1, n - 1);
    }
}

/// A tally depends on what it counts alone.
pub proof fn lemma_same_tally<A>(a: Seq<A>, b: Seq<A>, wanted: spec_fn(A) -> bool, n: int)
    requires
        forall|i: int| 0 <= i < n ==> a[i] == b[i],
    ensures
        tally(a, wanted, n) == tally(b, wanted, n),
    decreases n,
{
    if n > 0 {
        lemma_same_tally(a, b, wanted, n - 1);
    }
}

/// Nothing is picked from nothing.
pub proof fn lemma_picks_nothing<A, B>(
    from: Seq<A>,
    wanted: spec_fn(A) -> bool,
    made: spec_fn(A) -> B,
)
    requires
        from.len() == 0,
    ensures
        picks(from, wanted, made, Seq::<B>::empty()),
{
}

/// What is picked from a list is what is picked from all but its last element,
/// and something for that one where it is wanted.
pub proof fn lemma_picks_last<A, B>(
    from: Seq<A>,
    wanted: spec_fn(A) -> bool,
    made: spec_fn(A) -> B,
    rest: Seq<B>,
    out: Seq<B>,
)
    requires
        from.len() > 0,
        picks(from.drop_last(), wanted, made, rest),
        wanted(from.last()) ==> out == rest.push(made(from.last())),
        !wanted(from.last()) ==> out == rest,
    ensures
        picks(from, wanted, made, out),
{
    let front = from.drop_last();
    let end = from.len() - 1;
    assert forall|i: int| 0 <= i <= end implies tally(from, wanted, i) == tally(
        front,
        wanted,
        i,
    ) by {
        lemma_same_tally(from, front, wanted, i);
    }
    assert forall|i: int| 0 <= i < from.len() && wanted(#[trigger] from[i]) implies {
        &&& 0 <= tally(from, wanted, i) < out.len()
        &&& out[tally(from, wanted, i)] == made(from[i])
    } by {
        if i < end {
            assert(front[i] == from[i]);
        } else {
            assert(tally(from, wanted, end) == tally(front, wanted, end));
        }
    }
    assert(tally(from, wanted, end) == tally(front, wanted, end));
}

/// Whatever is picked is picked for something.
pub proof fn lemma_picked_for<A, B>(
    from: Seq<A>,
    wanted: spec_fn(A) -> bool,
    made: spec_fn(A) -> B,
    out: Seq<B>,
    k: int,
) -> (i: int)
    requires
        picks(from, wanted, made, out),
        0 <= k < out.len(),
    ensures
        0 <= i < from.len(),
        wanted(from[i]),
        out[k] == made(from[i]),
{
    lemma_reached(from, wanted, from.len() as int, k)
}

/// A count that is passed was passed somewhere.
proof fn lemma_reached<A>(from: Seq<A>, wanted: spec_fn(A) -> bool, n: int, k: int) -> (i: int)
    requires
        0 <= n <= from.len(),
        0 <= k < tally(from, wanted, n),
    ensures
        0 <= i < n,
        wanted(from[i]),
        tally(from, wanted, i) == k,
    decreases n,
{
    if tally(from, wanted, n - 1) > k {
        lemma_reached(from, wanted, n - 1, k)
    } else {
        n - 1
    }
}

/// What is picked is settled: any two lists picked alike are one.
pub proof fn lemma_picks_alike<A, B>(
    from: Seq<A>,
    wanted: spec_fn(A) -> bool,
    made: spec_fn(A) -> B,
    a: Seq<B>,
    b: Seq<B>,
)
    requires
        picks(from, wanted, made, a),
        picks(from, wanted, made, b),
    ensures
        a == b,
{
    assert forall|k: int| 0 <= k < a.len() implies a[k] == b[k] by {
        let i = lemma_reached(from, wanted, from.len() as int, k);
        assert(wanted(from[i]));
    }
    assert(a =~= b);
}

/// A list without what a filter takes out is picked from it.
pub proof fn lemma_filtered<A, B>(from: Seq<A>, wanted: spec_fn(A) -> bool, made: spec_fn(A) -> B)
    ensures
        picks(from, wanted, made, from.filter(wanted).map_values(made)),
    decreases from.len(),
{
    reveal(Seq::filter);
    if from.len() == 0 {
        assert(from.filter(wanted).map_values(made) =~= Seq::empty());
        lemma_picks_nothing(from, wanted, made);
    } else {
        let front = from.drop_last();
        lemma_filtered(front, wanted, made);
        let rest = front.filter(wanted).map_values(made);
        let out = from.filter(wanted).map_values(made);
        if wanted(from.last()) {
            assert(out =~= rest.push(made(from.last())));
        } else {
            assert(out =~= rest);
        }
        lemma_picks_last(from, wanted, made, rest, out);
    }
}

} // verus!
