//! The frame-scoped state store: persisted component state keyed by a
//! programmer-supplied identity, kept while the identity is built frame after
//! frame and reclaimed when a build pass completes without it.
use vstd::prelude::*;

verus! {

/// A stable key for one stateful component occurrence: its path in the tree
/// and a tag that tells apart siblings built at the same path.
#[derive(Clone, Copy, Debug, PartialEq, Eq, Structural)]
pub struct Identity {
    pub path: u64,
    pub tag: u64,
}

/// One persisted state. `instance` tells allocations apart: a state keeps its
/// instance for as long as it lives, and each allocation gets a new one.
pub struct Slot<S> {
    pub id: Identity,
    pub instance: Ghost<nat>,
    pub value: S,
    /// Whether the identity was built in the current frame.
    pub built: bool,
}

/// Reason a build pass stops.
#[derive(Clone, Copy, Debug, PartialEq, Eq, Structural)]
pub enum BuildError {
    /// Two components resolved to this identity within one frame.
    IdentityCollision(Identity),
}

/// A ticket for the state that one identity holds in one frame.
#[derive(Clone, Copy, Debug, PartialEq, Eq, Structural)]
pub struct StateHandle {
    pub id: Identity,
    pub frame: u64,
}

/// The state of one identity in `s`, where the identities of `s` are unique.
pub open spec fn slot_of<S>(s: Seq<Slot<S>>, id: Identity) -> Slot<S> {
    s[choose|i: int| 0 <= i < s.len() && s[i].id == id]
}

/// The identities of `s` are pairwise distinct.
pub open spec fn unique_ids<S>(s: Seq<Slot<S>>) -> bool {
    forall|i: int, j: int| 0 <= i < s.len() && 0 <= j < s.len() && i != j ==> s[i].id != s[j].id
}

/// The map from identity to state that the slots `s` hold.
pub open spec fn slots_map<S>(s: Seq<Slot<S>>) -> Map<Identity, Slot<S>> {
    Map::new(|id: Identity| exists|i: int| 0 <= i < s.len() && s[i].id == id, |id: Identity| slot_of(s, id))
}

/// `e` with its build mark set to `b`.
pub open spec fn with_built<S>(e: Slot<S>, b: bool) -> Slot<S> {
    Slot { id: e.id, instance: e.instance, value: e.value, built: b }
}

/// `e` holding `v`.
pub open spec fn with_value<S>(e: Slot<S>, v: S) -> Slot<S> {
    Slot { id: e.id, instance: e.instance, value: v, built: e.built }
}

/// The states after a frame begins: the same states, none of them built yet.
pub open spec fn after_begin<S>(m: Map<Identity, Slot<S>>) -> Map<Identity, Slot<S>> {
    Map::new(|k: Identity| m.contains_key(k), |k: Identity| with_built(m[k], false))
}

/// The states after the build pass ends: those built in this frame.
pub open spec fn after_end<S>(m: Map<Identity, Slot<S>>) -> Map<Identity, Slot<S>> {
    Map::new(|k: Identity| m.contains_key(k) && m[k].built, |k: Identity| m[k])
}

/// The states after `id` is built with initial value `init`, where
/// `issued` instances were allocated before: a collision changes nothing, a
/// live state is marked built, and an unknown identity gets a fresh instance.
pub open spec fn after_build<S>(m: Map<Identity, Slot<S>>, id: Identity, init: S, issued: nat) -> Map<Identity, Slot<S>> {
    if m.contains_key(id) {
        if m[id].built {
            m
        } else {
            m.insert(id, with_built(m[id], true))
        }
    } else {
        m.insert(id, Slot { id, instance: Ghost(issued), value: init, built: true })
    }
}

/// The number of instances allocated after `id` is built.
pub open spec fn issued_after_build<S>(m: Map<Identity, Slot<S>>, id: Identity, issued: nat) -> nat {
    if m.contains_key(id) {
        issued
    } else {
        issued + 1
    }
}

proof fn lemma_slot_of<S>(s: Seq<Slot<S>>, i: int)
    requires
        unique_ids(s),
        0 <= i < s.len(),
    ensures
        slots_map(s).contains_key(s[i].id),
        slots_map(s)[s[i].id] == s[i],
{
    let id = s[i].id;
    assert(exists|j: int| 0 <= j < s.len() && s[j].id == id);
}

proof fn lemma_map_update<S>(s: Seq<Slot<S>>, i: int, e: Slot<S>)
    requires
        unique_ids(s),
        0 <= i < s.len(),
        e.id == s[i].id,
    ensures
        unique_ids(s.update(i, e)),
        slots_map(s.update(i, e)) == slots_map(s).insert(e.id, e),
{
    let t = s.update(i, e);
    assert forall|k: Identity| #[trigger] slots_map(t).contains_key(k) == slots_map(s).insert(e.id, e).contains_key(k) by {
        if exists|j: int| 0 <= j < s.len() && s[j].id == k {
            let j = choose|j: int| 0 <= j < s.len() && s[j].id == k;
            assert(t[j].id == k);
        }
        if exists|j: int| 0 <= j < t.len() && t[j].id == k {
            let j = choose|j: int| 0 <= j < t.len() && t[j].id == k;
            assert(s[j].id == k);
        }
    }
    assert forall|k: Identity| slots_map(t).contains_key(k) implies #[trigger] slots_map(t)[k] == slots_map(s).insert(e.id, e)[k] by {
        let j = choose|j: int| 0 <= j < t.len() && t[j].id == k;
        lemma_slot_of(t, j);
        if j != i {
            lemma_slot_of(s, j);
        }
    }
    assert(slots_map(t) =~= slots_map(s).insert(e.id, e));
}

proof fn lemma_map_push<S>(s: Seq<Slot<S>>, e: Slot<S>)
    requires
        unique_ids(s),
        !slots_map(s).contains_key(e.id),
    ensures
        unique_ids(s.push(e)),
        slots_map(s.push(e)) == slots_map(s).insert(e.id, e),
{
    let t = s.push(e);
    assert forall|i: int, j: int| 0 <= i < t.len() && 0 <= j < t.len() && i != j implies t[i].id != t[j].id by {
        if i == s.len() as int {
            assert(!(exists|k: int| 0 <= k < s.len() && s[k].id == e.id));
            assert(s[j].id != e.id);
        } else if j == s.len() as int {
            assert(!(exists|k: int| 0 <= k < s.len() && s[k].id == e.id));
            assert(s[i].id != e.id);
        }
    }
    assert forall|k: Identity| #[trigger] slots_map(t).contains_key(k) == slots_map(s).insert(e.id, e).contains_key(k) by {
        if exists|j: int| 0 <= j < s.len() && s[j].id == k {
            let j = choose|j: int| 0 <= j < s.len() && s[j].id == k;
            assert(t[j].id == k);
        }
        if exists|j: int| 0 <= j < t.len() && t[j].id == k {
            let j = choose|j: int| 0 <= j < t.len() && t[j].id == k;
            if j < s.len() {
                assert(s[j].id == k);
            }
        }
        assert(t[s.len() as int] == e);
    }
    assert forall|k: Identity| slots_map(t).contains_key(k) implies #[trigger] slots_map(t)[k] == slots_map(s).insert(e.id, e)[k] by {
        let j = choose|j: int| 0 <= j < t.len() && t[j].id == k;
        lemma_slot_of(t, j);
        if j < s.len() {
            lemma_slot_of(s, j);
        }
    }
    assert(slots_map(t) =~= slots_map(s).insert(e.id, e));
}

proof fn lemma_same_ids<S>(s: Seq<Slot<S>>, t: Seq<Slot<S>>)
    requires
        unique_ids(s),
        t.len() == s.len(),
        forall|i: int| 0 <= i < s.len() ==> #[trigger] t[i].id == s[i].id,
    ensures
        unique_ids(t),
        slots_map(t).dom() == slots_map(s).dom(),
        forall|i: int| 0 <= i < s.len() ==> #[trigger] slots_map(t)[s[i].id] == t[i],
{
    assert forall|i: int, j: int| 0 <= i < t.len() && 0 <= j < t.len() && i != j implies t[i].id != t[j].id by {
        assert(t[i].id == s[i].id && t[j].id == s[j].id);
    }
    assert forall|k: Identity| #[trigger] slots_map(t).contains_key(k) == slots_map(s).contains_key(k) by {
        if exists|j: int| 0 <= j < s.len() && s[j].id == k {
            let j = choose|j: int| 0 <= j < s.len() && s[j].id == k;
            assert(t[j].id == k);
        }
        if exists|j: int| 0 <= j < t.len() && t[j].id == k {
            let j = choose|j: int| 0 <= j < t.len() && t[j].id == k;
            assert(s[j].id == k);
        }
    }
    assert(slots_map(t).dom() =~= slots_map(s).dom());
    assert forall|i: int| 0 <= i < s.len() implies #[trigger] slots_map(t)[s[i].id] == t[i] by {
        lemma_slot_of(t, i);
    }
}

/// The persisted states of all live identities, owned by the render loop
/// across frames.
pub struct StateStore<S> {
    slots: Vec<Slot<S>>,
    frame: u64,
    issued: Ghost<nat>,
}

impl<S> View for StateStore<S> {
    type V = Map<Identity, Slot<S>>;

    closed spec fn view(&self) -> Map<Identity, Slot<S>> {
        slots_map(self.slots@)
    }
}

impl<S> StateStore<S> {
    /// Internal consistency: one slot per identity, each keyed by its own
    /// identity, and every instance drawn from those issued so far.
    pub closed spec fn wf(&self) -> bool {
        &&& unique_ids(self.slots@)
        &&& forall|i: int| 0 <= i < self.slots@.len() ==> #[trigger] self.slots@[i].instance@ < self.issued@
    }

    /// The number of state instances ever allocated by this store; every
    /// live instance is below it.
    pub closed spec fn issued(&self) -> nat {
        self.issued@
    }

    /// The current frame number.
    pub closed spec fn frame_spec(&self) -> u64 {
        self.frame
    }

    /// Every live state is keyed by its own identity and was allocated
    /// before `issued`.
    pub proof fn lemma_instances_issued(&self)
        requires
            self.wf(),
        ensures
            forall|k: Identity| #[trigger] self@.contains_key(k) ==> self@[k].instance@ < self.issued() && self@[k].id == k,
    {
        assert forall|k: Identity| #[trigger] self@.contains_key(k) implies self@[k].instance@ < self.issued() && self@[k].id == k by {
            let i = choose|i: int| 0 <= i < self.slots@.len() && self.slots@[i].id == k;
            lemma_slot_of(self.slots@, i);
        }
    }

    /// An empty store at frame zero.
    pub fn new() -> (r: StateStore<S>)
        ensures
            r.wf(),
            r@ == Map::<Identity, Slot<S>>::empty(),
            r.frame_spec() == 0,
            r.issued() == 0,
    {
        let r = StateStore { slots: Vec::new(), frame: 0, issued: Ghost(0) };
        assert(r@ =~= Map::<Identity, Slot<S>>::empty());
        r
    }

    /// The current frame number.
    pub fn frame(&self) -> (r: u64)
        ensures
            r == self.frame_spec(),
    {
        self.frame
    }

    fn position(&self, id: Identity) -> (r: Option<usize>)
        requires
            self.wf(),
        ensures
            r.is_some() <==> self@.contains_key(id),
            r.is_some() ==> r.unwrap() < self.slots@.len() && self.slots@[r.unwrap() as int].id == id,
    {
        let mut i: usize = 0;
        while i < self.slots.len()
            invariant
                self.wf(),
                i <= self.slots@.len(),
                forall|j: int| 0 <= j < i ==> self.slots@[j].id != id,
            decreases self.slots@.len() - i,
        {
            if self.slots[i].id == id {
                proof {
                    lemma_slot_of(self.slots@, i as int);
                }
                return Some(i);
            }
            i = i + 1;
        }
        None
    }

    /// Whether `id` holds a state.
    pub fn contains(&self, id: Identity) -> (r: bool)
        requires
            self.wf(),
        ensures
            r == self@.contains_key(id),
    {
        self.position(id).is_some()
    }

    /// The number of live states.
    pub fn len(&self) -> (r: usize)
        requires
            self.wf(),
        ensures
            r == self@.len(),
    {
        proof {
            self.lemma_len();
        }
        self.slots.len()
    }

    proof fn lemma_len(&self)
        requires
            self.wf(),
        ensures
            self@.len() == self.slots@.len(),
            self@.dom().finite(),
    {
        let s = self.slots@;
        let ids = Set::new(|k: Identity| exists|i: int| 0 <= i < s.len() && s[i].id == k);
        let f = |i: int| s[i].id;
        assert(self@.dom() =~= ids);
        vstd::set_lib::lemma_int_range(0, s.len() as int);
        let r = vstd::set_lib::set_int_range(0, s.len() as int);
        assert forall|k: Identity| #[trigger] ids.contains(k) == r.map(f).contains(k) by {
            if ids.contains(k) {
                let i = choose|i: int| 0 <= i < s.len() && s[i].id == k;
                assert(r.contains(i) && f(i) == k);
            }
            if r.map(f).contains(k) {
                let i = choose|i: int| r.contains(i) && f(i) == k;
                assert(0 <= i < s.len() && s[i].id == k);
            }
        }
        assert(ids =~= r.map(f));
        assert(vstd::relations::injective_on(f, r));
        vstd::set_lib::lemma_map_size(r, ids, f);
    }

    /// Starts a frame: the frame number advances (wrapping), and every state
    /// stays as it was but for its build mark, which is cleared.
    pub fn begin_frame(&mut self)
        requires
            old(self).wf(),
        ensures
            final(self).wf(),
            final(self).frame_spec() == old(self).frame_spec().wrapping_add(1),
            final(self).issued() == old(self).issued(),
            final(self)@ == after_begin(old(self)@),
    {
        let ghost s0 = self.slots@;
        let n = self.slots.len();
        let mut i: usize = 0;
        while i < n
            invariant
                n == s0.len(),
                self.slots@.len() == n,
                i <= n,
                unique_ids(s0),
                self.issued == old(self).issued,
                self.frame == old(self).frame,
                forall|j: int| 0 <= j < n ==> #[trigger] s0[j].instance@ < self.issued@,
                forall|j: int| 0 <= j < i ==> #[trigger] self.slots@[j] == with_built(s0[j], false),
                forall|j: int| i <= j < n ==> #[trigger] self.slots@[j] == s0[j],
            decreases n - i,
        {
            self.slots[i].built = false;
            i = i + 1;
        }
        proof {
            lemma_same_ids(s0, self.slots@);
            assert forall|k: Identity| #[trigger] old(self)@.contains_key(k) implies self@[k] == with_built(old(self)@[k], false) by {
                let j = choose|j: int| 0 <= j < s0.len() && s0[j].id == k;
                lemma_slot_of(s0, j);
            }
            assert(self@ =~= after_begin(old(self)@));
        }
        self.frame = self.frame.wrapping_add(1);
    }

    /// Resolves the state of `id` for the current frame's build pass. An
    /// identity already built in this frame is a collision and changes
    /// nothing. A live identity keeps its state and `init` is dropped; an
    /// unknown one gets a fresh instance that holds `init`.
    pub fn build_state(&mut self, id: Identity, init: S) -> (r: Result<StateHandle, BuildError>)
        requires
            old(self).wf(),
        ensures
            final(self).wf(),
            final(self).frame_spec() == old(self).frame_spec(),
            r.is_err() <==> old(self)@.contains_key(id) && old(self)@[id].built,
            r.is_err() ==> r == Err::<StateHandle, BuildError>(BuildError::IdentityCollision(id))
                && final(self)@ == old(self)@ && final(self).issued() == old(self).issued(),
            r.is_ok() ==> r == Ok::<StateHandle, BuildError>(StateHandle { id, frame: old(self).frame_spec() }),
            final(self)@ == after_build(old(self)@, id, init, old(self).issued()),
            final(self).issued() == issued_after_build(old(self)@, id, old(self).issued()),
    {
        match self.position(id) {
            Some(i) => {
                proof {
                    lemma_slot_of(self.slots@, i as int);
                }
                if self.slots[i].built {
                    Err(BuildError::IdentityCollision(id))
                } else {
                    let ghost s0 = self.slots@;
                    self.slots[i].built = true;
                    proof {
                        lemma_map_update(s0, i as int, with_built(s0[i as int], true));
                        assert(self.slots@ == s0.update(i as int, with_built(s0[i as int], true)));
                    }
                    Ok(StateHandle { id, frame: self.frame })
                }
            },
            None => {
                let ghost s0 = self.slots@;
                let slot = Slot { id, instance: Ghost(self.issued@), value: init, built: true };
                proof {
                    lemma_map_push(s0, slot);
                }
                self.slots.push(slot);
                self.issued = Ghost(self.issued@ + 1);
                Ok(StateHandle { id, frame: self.frame })
            },
        }
    }

    /// Ends the build pass: every state whose identity was not built in this
    /// frame is reclaimed; the others stay as they are.
    pub fn end_build(&mut self)
        requires
            old(self).wf(),
        ensures
            final(self).wf(),
            final(self).frame_spec() == old(self).frame_spec(),
            final(self).issued() == old(self).issued(),
            final(self)@ == after_end(old(self)@),
    {
        let ghost s0 = self.slots@;
        let mut kept: Vec<Slot<S>> = Vec::new();
        while self.slots.len() > 0
            invariant
                unique_ids(s0),
                self.issued == old(self).issued,
                self.frame == old(self).frame,
                self.slots@.len() <= s0.len(),
                self.slots@ == s0.subrange(0, self.slots@.len() as int),
                unique_ids(kept@),
                forall|j: int| 0 <= j < s0.len() ==> #[trigger] s0[j].instance@ < self.issued@,
                forall|j: int| 0 <= j < kept@.len() ==> #[trigger] kept@[j].instance@ < self.issued@,
                forall|k: Identity| #[trigger] slots_map(kept@).contains_key(k) <==> exists|j: int|
                    self.slots@.len() <= j < s0.len() && s0[j].id == k && s0[j].built,
                forall|k: Identity| #[trigger] slots_map(kept@).contains_key(k) ==> slots_map(kept@)[k] == slots_map(s0)[k],
            decreases self.slots@.len(),
        {
            let ghost n = self.slots@.len() as int;
            let e = self.slots.pop().unwrap();
            proof {
                assert(e == s0[n - 1]);
                lemma_slot_of(s0, n - 1);
            }
            if e.built {
                proof {
                    if slots_map(kept@).contains_key(e.id) {
                        let j = choose|j: int| n <= j < s0.len() && s0[j].id == e.id && s0[j].built;
                        assert(s0[j].id == s0[n - 1].id);
                    }
                    lemma_map_push(kept@, e);
                    assert forall|k: Identity| #[trigger] slots_map(kept@.push(e)).contains_key(k) <==> exists|j: int|
                        n - 1 <= j < s0.len() && s0[j].id == k && s0[j].built by {
                        if k == e.id {
                            assert(s0[n - 1].id == k);
                        } else if exists|j: int| n - 1 <= j < s0.len() && s0[j].id == k && s0[j].built {
                            let j = choose|j: int| n - 1 <= j < s0.len() && s0[j].id == k && s0[j].built;
                            assert(n <= j);
                        }
                    }
                }
                kept.push(e);
            } else {
                proof {
                    assert forall|k: Identity| #[trigger] slots_map(kept@).contains_key(k) <==> exists|j: int|
                        n - 1 <= j < s0.len() && s0[j].id == k && s0[j].built by {
                        if exists|j: int| n - 1 <= j < s0.len() && s0[j].id == k && s0[j].built {
                            let j = choose|j: int| n - 1 <= j < s0.len() && s0[j].id == k && s0[j].built;
                            assert(n <= j);
                        }
                    }
                }
            }
        }
        proof {
            assert forall|k: Identity| #[trigger] slots_map(kept@).contains_key(k) <==> slots_map(s0).contains_key(k)
                && slots_map(s0)[k].built by {
                if slots_map(s0).contains_key(k) {
                    let j = choose|j: int| 0 <= j < s0.len() && s0[j].id == k;
                    lemma_slot_of(s0, j);
                }
            }
        }
        self.slots = kept;
        proof {
            assert(self@ =~= after_end(old(self)@));
        }
    }

    /// The state that `h` stands for: present exactly when `h` was issued in
    /// the current frame and its identity is live.
    pub fn get(&self, h: StateHandle) -> (r: Option<&S>)
        requires
            self.wf(),
        ensures
            r.is_some() <==> h.frame == self.frame_spec() && self@.contains_key(h.id),
            r.is_some() ==> *r.unwrap() == self@[h.id].value,
    {
        if h.frame != self.frame {
            return None;
        }
        match self.position(h.id) {
            Some(i) => {
                proof {
                    lemma_slot_of(self.slots@, i as int);
                }
                Some(&self.slots[i].value)
            },
            None => None,
        }
    }

    /// Replaces the state that `h` stands for with `v`, where `h` was issued
    /// in the current frame and its identity is live; reports whether it did.
    pub fn set(&mut self, h: StateHandle, v: S) -> (r: bool)
        requires
            old(self).wf(),
        ensures
            final(self).wf(),
            final(self).frame_spec() == old(self).frame_spec(),
            final(self).issued() == old(self).issued(),
            r <==> h.frame == old(self).frame_spec() && old(self)@.contains_key(h.id),
            r ==> final(self)@ == old(self)@.insert(h.id, with_value(old(self)@[h.id], v)),
            !r ==> final(self)@ == old(self)@,
    {
        if h.frame != self.frame {
            return false;
        }
        match self.position(h.id) {
            Some(i) => {
                let ghost s0 = self.slots@;
                proof {
                    lemma_slot_of(s0, i as int);
                }
                self.slots[i].value = v;
                proof {
                    lemma_map_update(s0, i as int, with_value(s0[i as int], v));
                    assert(self.slots@ == s0.update(i as int, with_value(s0[i as int], v)));
                }
                true
            },
            None => false,
        }
    }
}

} // verus!