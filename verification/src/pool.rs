//! Removal from a pool: what does not pass a test leaves, the rest keeps
//! its order.

use vstd::prelude::*;

verus! {

/// Something that stays in its pool or leaves it, as a context decides.
pub(crate) trait Survivor<C> {
    /// Whether the test can be made within the limits of the machine.
    spec fn testable(&self, context: &C) -> bool;

    spec fn survives(&self, context: &C) -> bool;

    fn check_survives(&self, context: &C) -> (survives: bool)
        requires
            self.testable(context),
        ensures
            survives == self.survives(context),
    ;
}

/// Removes from the pool what does not survive.
pub(crate) fn retain_survivors<T: Survivor<C>, C>(
    pool: &mut Vec<T>,
    context: &C,
    Ghost(keep): Ghost<spec_fn(T) -> bool>,
)
    requires
        forall|x: T| #[trigger] keep(x) == x.survives(context),
        forall|i: int| 0 <= i < old(pool).len() ==> (#[trigger] old(pool)[i]).testable(context),
    ensures
        final(pool)@ == old(pool)@.filter(keep),
{
    let ghost given = pool@;
    let mut kept: usize = 0;
    let ghost mut seen: int = 0;
    while kept < pool.len()
        invariant
            0 <= seen <= given.len(),
            kept <= pool.len(),
            forall|x: T| #[trigger] keep(x) == x.survives(context),
            forall|i: int| 0 <= i < given.len() ==> (#[trigger] given[i]).testable(context),
            pool.len() - kept == given.len() - seen,
            pool@.take(kept as int) == given.take(seen).filter(keep),
            pool@.skip(kept as int) == given.skip(seen),
        decreases pool.len() - kept,
    {
        let ghost before = pool@;
        assert(before[kept as int] == given[seen]) by {
            assert(before.skip(kept as int)[0] == given.skip(seen)[0]);
        }
        assert(before.skip(kept + 1) =~= given.skip(seen + 1)) by {
            assert forall|k: int| 0 <= k < before.len() - kept - 1 implies #[trigger] before.skip(
                kept + 1,
            )[k] == given.skip(seen + 1)[k] by {
                assert(before.skip(kept as int)[k + 1] == given.skip(seen)[k + 1]);
            }
        }
        proof {
            reveal_with_fuel(Seq::filter, 2);
            assert(given.take(seen + 1).drop_last() =~= given.take(seen));
        }
        if pool[kept].check_survives(context) {
            assert(pool@.take(kept + 1) =~= given.take(seen).filter(keep).push(given[seen]));
            kept += 1;
        } else {
            pool.remove(kept);
            assert(pool@.take(kept as int) =~= before.take(kept as int));
            assert(pool@.skip(kept as int) =~= before.skip(kept + 1));
        }
        proof {
            seen = seen + 1;
        }
    }
    assert(pool@.take(kept as int) =~= pool@);
    assert(given.skip(seen).len() == 0);
    assert(given.take(seen) =~= given);
}

/// What passes the filter first stays first.
pub(crate) proof fn lemma_filter_keeps_head<A>(s: Seq<A>, keep: spec_fn(A) -> bool)
    requires
        s.len() > 0,
        keep(s[0]),
    ensures
        s.filter(keep).len() > 0,
        s.filter(keep)[0] == s[0],
    decreases s.len(),
{
    reveal(Seq::filter);
    if s.len() > 1 {
        lemma_filter_keeps_head(s.drop_last(), keep);
    } else {
        assert(s.drop_last().filter(keep) =~= Seq::<A>::empty());
    }
}

} // verus!
