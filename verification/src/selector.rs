//! The Selector: keeps the workouts whose day ordinal reaches a
//! threshold, in their original order.

use vstd::prelude::*;
use crate::workout::{Workout, WorkoutView};

verus! {

/// The subsequence of `ws` whose day ordinal is at least `threshold`, in
/// the original order.
pub open spec fn select_spec(ws: Seq<WorkoutView>, threshold: u8) -> Seq<WorkoutView> {
    ws.filter(|w: WorkoutView| w.day >= threshold)
}

/// Keeps exactly the workouts with `day >= threshold`, preserving order.
/// A threshold of zero keeps everything; a threshold above every day
/// yields an empty result, which is valid.
pub fn select(workouts: Vec<Workout>, threshold: u8) -> (r: Vec<Workout>)
    ensures
        r.deep_view() == select_spec(workouts.deep_view(), threshold),
{
    let ghost dv = workouts.deep_view();
    let mut rest = workouts;
    let mut out: Vec<Workout> = Vec::new();
    let ghost mut i: int = 0;
    proof {
        assert(dv.take(0) =~= Seq::<WorkoutView>::empty());
        assert(select_spec(dv.take(0), threshold) =~= Seq::<WorkoutView>::empty()) by {
            reveal(Seq::filter);
        }
        assert(out.deep_view() =~= Seq::<WorkoutView>::empty());
        assert(rest.deep_view() =~= dv.skip(0));
    }
    while rest.len() > 0
        invariant
            0 <= i <= dv.len(),
            rest.deep_view() == dv.skip(i),
            rest@.len() == dv.len() - i,
            out.deep_view() == select_spec(dv.take(i), threshold),
        decreases rest@.len(),
    {
        let ghost pre = out.deep_view();
        let ghost restpre = rest.deep_view();
        let ghost vpre = rest@;
        let w = rest.remove(0);
        proof {
            assert(w@ == restpre[0]);
            assert(w@ == dv[i]);
            assert forall|k: int|
                0 <= k < rest.deep_view().len() implies rest.deep_view()[k] == dv.skip(i + 1)[k] by {
                assert(rest@[k] == vpre[k + 1]);
                assert(rest.deep_view()[k] == rest@[k].deep_view());
                assert(restpre[k + 1] == vpre[k + 1].deep_view());
                assert(restpre[k + 1] == dv[i + 1 + k]);
            }
            assert(rest.deep_view() =~= dv.skip(i + 1));
            assert(dv.take(i + 1).drop_last() =~= dv.take(i));
            assert(dv.take(i + 1).last() == dv[i]);
            assert(select_spec(dv.take(i + 1), threshold) == if dv[i].day >= threshold {
                select_spec(dv.take(i), threshold).push(dv[i])
            } else {
                select_spec(dv.take(i), threshold)
            }) by {
                reveal(Seq::filter);
            }
        }
        if w.day >= threshold {
            out.push(w);
            proof {
                assert(out.deep_view() =~= pre.push(w@));
            }
        }
        proof {
            i = i + 1;
        }
    }
    proof {
        assert(dv.take(dv.len() as int) =~= dv);
    }
    out
}

/// Selecting from a sequence every member of which already reaches the
/// threshold changes nothing.
proof fn lemma_select_keeps_satisfying(s: Seq<WorkoutView>, threshold: u8)
    requires
        forall|k: int| 0 <= k < s.len() ==> (#[trigger] s[k]).day >= threshold,
    ensures
        select_spec(s, threshold) == s,
    decreases s.len(),
{
    reveal(Seq::filter);
    if s.len() == 0 {
        assert(select_spec(s, threshold) =~= s);
    } else {
        assert(forall|k: int| 0 <= k < s.len() - 1 ==> #[trigger] s.drop_last()[k] == s[k]);
        lemma_select_keeps_satisfying(s.drop_last(), threshold);
        assert(s.last().day >= threshold);
        assert(select_spec(s, threshold) == select_spec(s.drop_last(), threshold).push(s.last()));
        assert(s.drop_last().push(s.last()) =~= s);
    }
}

/// Every member of a selection reaches the threshold.
proof fn lemma_select_members(s: Seq<WorkoutView>, threshold: u8)
    ensures
        forall|k: int|
            0 <= k < select_spec(s, threshold).len() ==> (#[trigger] select_spec(s, threshold)[k]).day
                >= threshold,
    decreases s.len(),
{
    reveal(Seq::filter);
    if s.len() > 0 {
        lemma_select_members(s.drop_last(), threshold);
        if s.last().day >= threshold {
            assert(select_spec(s, threshold) == select_spec(s.drop_last(), threshold).push(
                s.last(),
            ));
        } else {
            assert(select_spec(s, threshold) == select_spec(s.drop_last(), threshold));
        }
    }
}

/// Selection is idempotent: filtering an already filtered sequence with
/// the same threshold changes nothing.
pub proof fn lemma_select_idempotent(ws: Seq<WorkoutView>, threshold: u8)
    ensures
        select_spec(select_spec(ws, threshold), threshold) == select_spec(ws, threshold),
{
    lemma_select_members(ws, threshold);
    lemma_select_keeps_satisfying(select_spec(ws, threshold), threshold);
}

/// A threshold of zero is a no-op filter: every workout is kept, in
/// order, unchanged.
pub proof fn lemma_select_zero(ws: Seq<WorkoutView>)
    ensures
        select_spec(ws, 0) == ws,
{
    lemma_select_keeps_satisfying(ws, 0);
}

} // verus!
