//! The life of persisted state over whole frames, stated over the store's
//! transitions: a frame opens, its build pass builds identities in order, and
//! the pass ends by reclaiming what was not built. What a draw writes is a
//! change of value between two frames, which the next frame keeps.
use vstd::prelude::*;
use crate::state::{after_begin, after_build, after_end, issued_after_build, with_value, Identity, Slot};

verus! {

/// The states, and the number of instances allocated, after building the
/// identities of `builds` in order, each with its initial value.
pub open spec fn run_builds<S>(m: Map<Identity, Slot<S>>, builds: Seq<(Identity, S)>, issued: nat) -> (Map<Identity, Slot<S>>, nat)
    decreases builds.len(),
{
    if builds.len() == 0 {
        (m, issued)
    } else {
        let prev = run_builds(m, builds.drop_last(), issued);
        let b = builds.last();
        (after_build(prev.0, b.0, b.1, prev.1), issued_after_build(prev.0, b.0, prev.1))
    }
}

/// The states, and the number of instances allocated, after one frame whose
/// build pass builds `builds`.
pub open spec fn run_frame<S>(m: Map<Identity, Slot<S>>, builds: Seq<(Identity, S)>, issued: nat) -> (Map<Identity, Slot<S>>, nat) {
    let r = run_builds(after_begin(m), builds, issued);
    (after_end(r.0), r.1)
}

/// The states after the frames of `frames`, one after the other.
pub open spec fn run_frames<S>(m: Map<Identity, Slot<S>>, frames: Seq<Seq<(Identity, S)>>, issued: nat) -> (Map<Identity, Slot<S>>, nat)
    decreases frames.len(),
{
    if frames.len() == 0 {
        (m, issued)
    } else {
        let prev = run_frames(m, frames.drop_last(), issued);
        run_frame(prev.0, frames.last(), prev.1)
    }
}

/// `builds` builds `id`.
pub open spec fn builds_id<S>(builds: Seq<(Identity, S)>, id: Identity) -> bool {
    exists|j: int| 0 <= j < builds.len() && builds[j].0 == id
}

/// Every state of `m` is keyed by its own identity and was allocated below
/// `issued`.
pub open spec fn instances_below<S>(m: Map<Identity, Slot<S>>, issued: nat) -> bool {
    forall|k: Identity| #[trigger] m.contains_key(k) ==> m[k].instance@ < issued
}

proof fn lemma_run_builds<S>(m: Map<Identity, Slot<S>>, builds: Seq<(Identity, S)>, issued: nat, id: Identity)
    ensures
        run_builds(m, builds, issued).1 >= issued,
        instances_below(m, issued) ==> instances_below(run_builds(m, builds, issued).0, run_builds(m, builds, issued).1),
        m.contains_key(id) ==> run_builds(m, builds, issued).0.contains_key(id)
            && run_builds(m, builds, issued).0[id].instance == m[id].instance
            && run_builds(m, builds, issued).0[id].value == m[id].value,
        run_builds(m, builds, issued).0.contains_key(id) && !m.contains_key(id) ==> run_builds(m, builds, issued).0[id].instance@ >= issued,
        builds_id(builds, id) ==> run_builds(m, builds, issued).0.contains_key(id) && run_builds(m, builds, issued).0[id].built,
        !builds_id(builds, id) ==> run_builds(m, builds, issued).0.contains_key(id) == m.contains_key(id)
            && (m.contains_key(id) ==> run_builds(m, builds, issued).0[id] == m[id]),
        forall|j: int| 0 <= j < builds.len() && builds[j].0 == id && !m.contains_key(id)
            && (forall|i: int| 0 <= i < j ==> builds[i].0 != id) ==> #[trigger] builds[j].1 == run_builds(m, builds, issued).0[id].value,
    decreases builds.len(),
{
    if builds.len() > 0 {
        let pre = builds.drop_last();
        lemma_run_builds(m, pre, issued, id);
        let prev = run_builds(m, pre, issued);
        let b = builds.last();
        if instances_below(m, issued) {
            assert forall|k: Identity| #[trigger] run_builds(m, builds, issued).0.contains_key(k)
                implies run_builds(m, builds, issued).0[k].instance@ < run_builds(m, builds, issued).1 by {
                if k != b.0 {
                    assert(prev.0.contains_key(k));
                }
            }
        }
        if builds_id(builds, id) && !builds_id(pre, id) {
            let j = choose|j: int| 0 <= j < builds.len() && builds[j].0 == id;
            if j < pre.len() {
                assert(pre[j].0 == id);
            }
        }
        if builds_id(pre, id) {
            let j = choose|j: int| 0 <= j < pre.len() && pre[j].0 == id;
            assert(builds[j].0 == id);
        }
        assert forall|j: int| 0 <= j < builds.len() && builds[j].0 == id && !m.contains_key(id)
            && (forall|i: int| 0 <= i < j ==> builds[i].0 != id) implies #[trigger] builds[j].1 == run_builds(m, builds, issued).0[id].value by {
            if j < pre.len() {
                assert(pre[j] == builds[j]);
                assert forall|i: int| 0 <= i < j implies pre[i].0 != id by {
                    assert(pre[i] == builds[i]);
                }
                assert(pre[j].1 == prev.0[id].value);
            } else {
                assert forall|i: int| 0 <= i < pre.len() implies pre[i].0 != id by {
                    assert(pre[i] == builds[i]);
                }
            }
        }
    }
}

/// A state whose identity is built in a frame survives that frame: same
/// instance, same value. So what a draw wrote in one frame is what the next
/// frame's build finds.
pub proof fn lemma_state_survives_frame<S>(m: Map<Identity, Slot<S>>, builds: Seq<(Identity, S)>, issued: nat, id: Identity)
    requires
        m.contains_key(id),
        builds_id(builds, id),
    ensures
        run_frame(m, builds, issued).0.contains_key(id),
        run_frame(m, builds, issued).0[id].instance == m[id].instance,
        run_frame(m, builds, issued).0[id].value == m[id].value,
{
    lemma_run_builds(after_begin(m), builds, issued, id);
}

/// What a draw writes into a live state (see `StateContext::set`) is what
/// the next frame that builds the identity finds, in the same instance.
pub proof fn lemma_write_seen_next_frame<S>(
    m: Map<Identity, Slot<S>>,
    id: Identity,
    v: S,
    builds: Seq<(Identity, S)>,
    issued: nat,
)
    requires
        m.contains_key(id),
        builds_id(builds, id),
    ensures
        run_frame(m.insert(id, with_value(m[id], v)), builds, issued).0.contains_key(id),
        run_frame(m.insert(id, with_value(m[id], v)), builds, issued).0[id].instance == m[id].instance,
        run_frame(m.insert(id, with_value(m[id], v)), builds, issued).0[id].value == v,
{
    lemma_state_survives_frame(m.insert(id, with_value(m[id], v)), builds, issued, id);
}

/// A state whose identity is built in every one of a run of frames is, at
/// the end, the very instance it was at the start, with the same value.
pub proof fn lemma_state_survives_frames<S>(
    m: Map<Identity, Slot<S>>,
    frames: Seq<Seq<(Identity, S)>>,
    issued: nat,
    id: Identity,
)
    requires
        m.contains_key(id),
        forall|f: int| 0 <= f < frames.len() ==> builds_id(#[trigger] frames[f], id),
    ensures
        run_frames(m, frames, issued).0.contains_key(id),
        run_frames(m, frames, issued).0[id].instance == m[id].instance,
        run_frames(m, frames, issued).0[id].value == m[id].value,
    decreases frames.len(),
{
    if frames.len() > 0 {
        let pre = frames.drop_last();
        assert forall|f: int| 0 <= f < pre.len() implies builds_id(#[trigger] pre[f], id) by {
            assert(pre[f] == frames[f]);
        }
        lemma_state_survives_frames(m, pre, issued, id);
        let prev = run_frames(m, pre, issued);
        assert(builds_id(frames[frames.len() - 1], id));
        lemma_state_survives_frame(prev.0, frames.last(), prev.1, id);
    }
}

/// The states after the draw writes `writes`, in order: each replaces the
/// value of a live state (see `StateContext::set`); a write to an identity
/// without state changes nothing.
pub open spec fn run_writes<S>(m: Map<Identity, Slot<S>>, writes: Seq<(Identity, S)>) -> Map<Identity, Slot<S>>
    decreases writes.len(),
{
    if writes.len() == 0 {
        m
    } else {
        let prev = run_writes(m, writes.drop_last());
        let w = writes.last();
        if prev.contains_key(w.0) {
            prev.insert(w.0, with_value(prev[w.0], w.1))
        } else {
            prev
        }
    }
}

/// The states after whole frames, each its build pass (first) followed by
/// the writes of its draw pass (second).
pub open spec fn run_drawn_frames<S>(
    m: Map<Identity, Slot<S>>,
    frames: Seq<(Seq<(Identity, S)>, Seq<(Identity, S)>)>,
    issued: nat,
) -> (Map<Identity, Slot<S>>, nat)
    decreases frames.len(),
{
    if frames.len() == 0 {
        (m, issued)
    } else {
        let prev = run_drawn_frames(m, frames.drop_last(), issued);
        let built = run_frame(prev.0, frames.last().0, prev.1);
        (run_writes(built.0, frames.last().1), built.1)
    }
}

proof fn lemma_run_writes<S>(m: Map<Identity, Slot<S>>, writes: Seq<(Identity, S)>, id: Identity)
    ensures
        run_writes(m, writes).contains_key(id) == m.contains_key(id),
        m.contains_key(id) ==> run_writes(m, writes)[id].instance == m[id].instance,
    decreases writes.len(),
{
    if writes.len() > 0 {
        lemma_run_writes(m, writes.drop_last(), id);
    }
}

/// A state whose identity is built in every one of a run of frames, whose
/// draws may write it, is at the end the very instance it was at the start.
pub proof fn lemma_instance_survives_drawn_frames<S>(
    m: Map<Identity, Slot<S>>,
    frames: Seq<(Seq<(Identity, S)>, Seq<(Identity, S)>)>,
    issued: nat,
    id: Identity,
)
    requires
        m.contains_key(id),
        forall|f: int| 0 <= f < frames.len() ==> builds_id(#[trigger] frames[f].0, id),
    ensures
        run_drawn_frames(m, frames, issued).0.contains_key(id),
        run_drawn_frames(m, frames, issued).0[id].instance == m[id].instance,
    decreases frames.len(),
{
    if frames.len() > 0 {
        let pre = frames.drop_last();
        assert forall|f: int| 0 <= f < pre.len() implies builds_id(#[trigger] pre[f].0, id) by {
            assert(pre[f] == frames[f]);
        }
        lemma_instance_survives_drawn_frames(m, pre, issued, id);
        let prev = run_drawn_frames(m, pre, issued);
        assert(builds_id(frames[frames.len() - 1].0, id));
        lemma_state_survives_frame(prev.0, frames.last().0, prev.1, id);
        let built = run_frame(prev.0, frames.last().0, prev.1);
        lemma_run_writes(built.0, frames.last().1, id);
    }
}

/// An identity that a frame's build pass does not build holds no state once
/// the frame is over, whatever it held before.
pub proof fn lemma_unbuilt_state_reclaimed<S>(m: Map<Identity, Slot<S>>, builds: Seq<(Identity, S)>, issued: nat, id: Identity)
    requires
        !builds_id(builds, id),
    ensures
        !run_frame(m, builds, issued).0.contains_key(id),
{
    lemma_run_builds(after_begin(m), builds, issued, id);
}

/// Once reclaimed, an identity holds no state after any run of frames that
/// do not build it.
pub proof fn lemma_reclaimed_stays_absent<S>(
    m: Map<Identity, Slot<S>>,
    frames: Seq<Seq<(Identity, S)>>,
    issued: nat,
    id: Identity,
)
    requires
        frames.len() > 0,
        forall|f: int| 0 <= f < frames.len() ==> !builds_id(#[trigger] frames[f], id),
    ensures
        !run_frames(m, frames, issued).0.contains_key(id),
{
    let prev = run_frames(m, frames.drop_last(), issued);
    assert(!builds_id(frames[frames.len() - 1], id));
    lemma_unbuilt_state_reclaimed(prev.0, frames.last(), prev.1, id);
}

/// An identity built in a frame where it held no state gets a fresh
/// instance, allocated after every state that lived before the frame, and
/// holds the initial value of its first build in the frame.
pub proof fn lemma_new_state_fresh<S>(m: Map<Identity, Slot<S>>, builds: Seq<(Identity, S)>, issued: nat, id: Identity, j: int)
    requires
        instances_below(m, issued),
        !m.contains_key(id),
        0 <= j < builds.len(),
        builds[j].0 == id,
        forall|i: int| 0 <= i < j ==> builds[i].0 != id,
    ensures
        run_frame(m, builds, issued).0.contains_key(id),
        run_frame(m, builds, issued).0[id].instance@ >= issued,
        forall|k: Identity| #[trigger] m.contains_key(k) ==> m[k].instance != run_frame(m, builds, issued).0[id].instance,
        run_frame(m, builds, issued).0[id].value == builds[j].1,
        instances_below(run_frame(m, builds, issued).0, run_frame(m, builds, issued).1),
{
    lemma_run_builds(after_begin(m), builds, issued, id);
    assert(builds_id(builds, id));
    assert(builds[j].1 == run_builds(after_begin(m), builds, issued).0[id].value);
    assert(instances_below(after_begin(m), issued));
}

} // verus!
