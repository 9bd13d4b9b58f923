//! Sequences: runs of steps that may fail, and where the items of a filtered
//! and of a flattened sequence come from.

use vstd::prelude::*;

verus! {

/// Where `p` holds of some number below `n`, it holds of a first one.
pub proof fn lemma_first_position(n: int, p: spec_fn(int) -> bool)
    requires
        exists|i: int| 0 <= i < n && #[trigger] p(i),
    ensures
        exists|i: int| 0 <= i < n && #[trigger] p(i) && forall|j: int| 0 <= j < i ==> !#[trigger] p(j),
    decreases n,
{
    if exists|i: int| 0 <= i < n - 1 && #[trigger] p(i) {
        lemma_first_position(n - 1, p);
    } else {
        let i = n - 1;
        assert(p(i));
        assert(forall|j: int| 0 <= j < i ==> !#[trigger] p(j));
    }
}

/// The positions of the items that `keep` holds of, in rising order.
pub open spec fn kept_positions<A>(s: Seq<A>, keep: spec_fn(A) -> bool) -> Seq<int>
    decreases s.len(),
{
    if s.len() == 0 {
        Seq::empty()
    } else {
        let earlier = kept_positions(s.drop_last(), keep);
        if keep(s.last()) {
            earlier.push(s.len() - 1)
        } else {
            earlier
        }
    }
}

/// The items of a filtered sequence are the kept items of the sequence, one
/// for one and in the same order.
pub proof fn lemma_kept_positions<A>(s: Seq<A>, keep: spec_fn(A) -> bool)
    ensures
        kept_positions(s, keep).len() == s.filter(keep).len(),
        forall|i: int|
            0 <= i < kept_positions(s, keep).len() ==> {
                let p = #[trigger] kept_positions(s, keep)[i];
                0 <= p < s.len() && keep(s[p]) && s.filter(keep)[i] == s[p]
            },
        forall|i: int, j: int|
            0 <= i < j < kept_positions(s, keep).len() ==> (#[trigger] kept_positions(s, keep)[i])
                < (#[trigger] kept_positions(s, keep)[j]),
        forall|p: int|
            0 <= p < s.len() && keep(#[trigger] s[p]) ==> exists|i: int|
                0 <= i < kept_positions(s, keep).len() && #[trigger] kept_positions(s, keep)[i]
                    == p,
    decreases s.len(),
{
    reveal(Seq::filter);
    if s.len() > 0 {
        let init = s.drop_last();
        lemma_kept_positions(init, keep);
        let earlier = kept_positions(init, keep);
        let kp = kept_positions(s, keep);
        assert forall|i: int| 0 <= i < kp.len() implies {
            let p = #[trigger] kp[i];
            0 <= p < s.len() && keep(s[p]) && s.filter(keep)[i] == s[p]
        } by {
            if i < earlier.len() {
                let p = earlier[i];
                assert(kp[i] == p);
                assert(init[p] == s[p]);
                assert(init.filter(keep)[i] == s.filter(keep)[i]);
            }
        }
        assert forall|i: int, j: int| 0 <= i < j < kp.len() implies (#[trigger] kp[i])
            < (#[trigger] kp[j]) by {
            assert(kp[i] == earlier[i]);
            if j < earlier.len() {
                assert(kp[j] == earlier[j]);
            }
        }
        assert forall|p: int| 0 <= p < s.len() && keep(#[trigger] s[p]) implies exists|i: int|
            0 <= i < kp.len() && #[trigger] kp[i] == p by {
            if p < init.len() {
                assert(init[p] == s[p]);
                let i = choose|i: int| 0 <= i < earlier.len() && #[trigger] earlier[i] == p;
                assert(kp[i] == p);
            } else {
                assert(kp[kp.len() - 1] == p);
            }
        }
    }
}

/// For each item of the flattened sequence, the part it comes from and its
/// position in that part.
pub open spec fn flat_positions<A>(parts: Seq<Seq<A>>) -> Seq<(int, int)>
    decreases parts.len(),
{
    if parts.len() == 0 {
        Seq::empty()
    } else {
        flat_positions(parts.drop_last()) + Seq::new(
            parts.last().len(),
            |b: int| (parts.len() - 1, b),
        )
    }
}

/// Names the item at position `b` of the part `a`.
pub open spec fn is_at<A>(parts: Seq<Seq<A>>, a: int, b: int) -> bool {
    true
}

/// The items of a flattened sequence are the items of the parts, one for
/// one.
pub proof fn lemma_flat_positions<A>(parts: Seq<Seq<A>>)
    ensures
        flat_positions(parts).len() == parts.flatten().len(),
        forall|p: int|
            0 <= p < flat_positions(parts).len() ==> {
                let at = #[trigger] flat_positions(parts)[p];
                0 <= at.0 < parts.len() && 0 <= at.1 < parts[at.0].len() && parts.flatten()[p]
                    == parts[at.0][at.1]
            },
        forall|p: int, q: int|
            0 <= p < q < flat_positions(parts).len() ==> (#[trigger] flat_positions(parts)[p])
                != (#[trigger] flat_positions(parts)[q]),
        forall|a: int, b: int|
            0 <= a < parts.len() && 0 <= b < parts[a].len() && #[trigger] is_at(parts, a, b) ==> exists|p: int|
                0 <= p < flat_positions(parts).len() && #[trigger] flat_positions(parts)[p] == (
                    a,
                    b,
                ),
    decreases parts.len(),
{
    if parts.len() > 0 {
        let init = parts.drop_last();
        let last = parts.last();
        lemma_flat_positions(init);
        assert(init.push(last) =~= parts);
        init.lemma_flatten_push(last);
        let earlier = flat_positions(init);
        let fp = flat_positions(parts);
        let flat = parts.flatten();
        assert(flat =~= init.flatten() + last);
        assert forall|p: int| 0 <= p < fp.len() implies {
            let at = #[trigger] fp[p];
            0 <= at.0 < parts.len() && 0 <= at.1 < parts[at.0].len() && flat[p]
                == parts[at.0][at.1]
        } by {
            if p < earlier.len() {
                let at = earlier[p];
                assert(fp[p] == at);
                assert(init[at.0] == parts[at.0]);
                assert(flat[p] == init.flatten()[p]);
            } else {
                assert(fp[p] == (parts.len() - 1, p - earlier.len()));
                assert(flat[p] == last[p - earlier.len()]);
            }
        }
        assert forall|p: int, q: int| 0 <= p < q < fp.len() implies (#[trigger] fp[p])
            != (#[trigger] fp[q]) by {
            if q < earlier.len() {
                assert(fp[p] == earlier[p] && fp[q] == earlier[q]);
            } else if p < earlier.len() {
                assert(fp[p] == earlier[p]);
                assert(fp[p].0 < init.len());
                assert(fp[q].0 == parts.len() - 1);
            } else {
                assert(fp[p].1 == p - earlier.len());
                assert(fp[q].1 == q - earlier.len());
            }
        }
        assert forall|a: int, b: int|
            0 <= a < parts.len() && 0 <= b < parts[a].len() && #[trigger] is_at(parts, a, b) implies exists|
            p: int,
        |
            0 <= p < fp.len() && #[trigger] fp[p] == (a, b) by {
            if a < init.len() {
                assert(init[a] == parts[a]);
                assert(is_at(init, a, b));
                let p = choose|p: int| 0 <= p < earlier.len() && #[trigger] earlier[p] == (a, b);
                assert(fp[p] == (a, b));
            } else {
                assert(fp[earlier.len() + b] == (a, b));
            }
        }
    } else {
        assert(parts.flatten() =~= Seq::<A>::empty());
    }
}

/// The outcome of a sequence of steps: all their results in order, or the
/// error of the first step that failed.
pub open spec fn collect<T, E>(s: Seq<Result<T, E>>) -> Result<Seq<T>, E>
    decreases s.len(),
{
    if s.len() == 0 {
        Ok(Seq::empty())
    } else {
        match collect(s.drop_last()) {
            Err(e) => Err(e),
            Ok(v) => match s.last() {
                Ok(x) => Ok(v.push(x)),
                Err(e) => Err(e),
            },
        }
    }
}

/// `collect` succeeds exactly when every step does, and then holds every
/// step's result at the step's position; it fails with the error of the
/// first failing step.
pub proof fn lemma_collect<T, E>(s: Seq<Result<T, E>>)
    ensures
        match collect(s) {
            Ok(v) => v.len() == s.len() && forall|i: int|
                0 <= i < s.len() ==> #[trigger] s[i] == Ok::<T, E>(v[i]),
            Err(e) => exists|i: int|
                0 <= i < s.len() && #[trigger] s[i] == Err::<T, E>(e) && forall|j: int|
                    0 <= j < i ==> (#[trigger] s[j]) is Ok,
        },
    decreases s.len(),
{
    if s.len() > 0 {
        let init = s.drop_last();
        lemma_collect(init);
        match collect(init) {
            Err(e) => {
                let i = choose|i: int|
                    0 <= i < init.len() && #[trigger] init[i] == Err::<T, E>(e) && forall|j: int|
                        0 <= j < i ==> (#[trigger] init[j]) is Ok;
                assert(s[i] == init[i]);
                assert forall|j: int| 0 <= j < i implies (#[trigger] s[j]) is Ok by {
                    assert(s[j] == init[j]);
                }
            },
            Ok(v) => match s.last() {
                Ok(x) => {
                    let w = v.push(x);
                    assert forall|i: int| 0 <= i < s.len() implies #[trigger] s[i] == Ok::<T, E>(
                        w[i],
                    ) by {
                        if i < init.len() {
                            assert(s[i] == init[i]);
                        }
                    }
                },
                Err(e) => {
                    let i = s.len() - 1;
                    assert(s[i] == Err::<T, E>(e));
                    assert forall|j: int| 0 <= j < i implies (#[trigger] s[j]) is Ok by {
                        assert(s[j] == init[j]);
                    }
                },
            },
        }
    }
}

/// One more step after a run of steps.
pub proof fn lemma_collect_step<T, E>(s: Seq<Result<T, E>>, n: int)
    requires
        0 <= n < s.len(),
    ensures
        collect(s.take(n + 1)) == (match collect(s.take(n)) {
            Err(e) => Err(e),
            Ok(v) => match s[n] {
                Ok(x) => Ok(v.push(x)),
                Err(e) => Err(e),
            },
        }),
{
    assert(s.take(n + 1).drop_last() =~= s.take(n));
    assert(s.take(n + 1).last() == s[n]);
}

/// A run of steps that fails stays failed, with the same error, whatever
/// steps follow.
pub proof fn lemma_collect_prefix_error<T, E>(s: Seq<Result<T, E>>, n: int)
    requires
        0 <= n <= s.len(),
        collect(s.take(n)) is Err,
    ensures
        collect(s) == collect(s.take(n)),
    decreases s.len() - n,
{
    if n < s.len() {
        lemma_collect_step(s, n);
        lemma_collect_prefix_error(s, n + 1);
    } else {
        assert(s.take(n) =~= s);
    }
}

/// One more item after a run of items, of which those that `keep` holds of
/// are taken through the step `f`.
pub proof fn lemma_collect_filter_step<A, T, E>(
    all: Seq<A>,
    keep: spec_fn(A) -> bool,
    f: spec_fn(A) -> Result<T, E>,
    n: int,
)
    requires
        0 <= n < all.len(),
    ensures
        collect(all.take(n + 1).filter(keep).map_values(f)) == (if keep(all[n]) {
            match collect(all.take(n).filter(keep).map_values(f)) {
                Err(e) => Err(e),
                Ok(v) => match f(all[n]) {
                    Ok(x) => Ok(v.push(x)),
                    Err(e) => Err(e),
                },
            }
        } else {
            collect(all.take(n).filter(keep).map_values(f))
        }),
{
    let before = all.take(n);
    let kept = before.filter(keep);
    all.lemma_take_succ_push(n);
    before.lemma_filter_push(all[n], keep);
    kept.lemma_push_map_commute(f, all[n]);
    if keep(all[n]) {
        let run = kept.push(all[n]).map_values(f);
        assert(run.drop_last() =~= kept.map_values(f));
        assert(run.last() == f(all[n]));
    }
}

/// Where the first `n` items make the run fail, all items do, with the same
/// error.
pub proof fn lemma_collect_filter_prefix_error<A, T, E>(
    all: Seq<A>,
    keep: spec_fn(A) -> bool,
    f: spec_fn(A) -> Result<T, E>,
    n: int,
)
    requires
        0 <= n <= all.len(),
        collect(all.take(n).filter(keep).map_values(f)) is Err,
    ensures
        collect(all.filter(keep).map_values(f)) == collect(
            all.take(n).filter(keep).map_values(f),
        ),
    decreases all.len() - n,
{
    if n < all.len() {
        lemma_collect_filter_step(all, keep, f, n);
        lemma_collect_filter_prefix_error(all, keep, f, n + 1);
    } else {
        assert(all.take(n) =~= all);
    }
}

} // verus!
