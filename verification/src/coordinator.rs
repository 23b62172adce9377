//! The shutdown coordinator: the user-facing state machine.
//!
//! Per shutdown kind, the coordinator keeps the ordered sequence of
//! registered shutdown callbacks (top = the active one), each represented
//! by the opaque [`CallbackId`] minted at registration. Registration
//! lazily activates a kind — which tells the surrounding glue to start the
//! restricted-context signal registration — and the first activation
//! overall starts the bridge worker. Releasing a guard removes its
//! callback from every kind it named, deactivates kinds whose sequence
//! empties, and tears the worker down once no kind remains active.
//!
//! Dispatch, run by the bridge worker for one kind at a time, picks the
//! most recently registered callback; the glue invokes it under a recovery
//! boundary that absorbs a panic in user code. When no callback is left
//! for a kind — its guard raced a notification already in flight — the
//! decision is to terminate the process with the fixed exit code: a
//! notification whose cleanup path silently vanished must not be
//! swallowed.

use vstd::prelude::*;
use crate::ShutdownType;
use crate::assoc::{
    assoc_map, keys_unique, lemma_assoc_map_dom, lemma_assoc_map_get, lemma_assoc_map_push,
    lemma_assoc_map_remove, lemma_assoc_map_update, lemma_keys_unique_push,
    lemma_keys_unique_remove, lemma_keys_unique_update, lemma_take_succ_contains,
};
use crate::backend::TERMINATE_EXIT_CODE;

verus! {

/// An opaque, comparable token identifying one registered shutdown
/// callback. Equality is identity of registration: the coordinator mints a
/// fresh token for every registration call.
#[derive(Clone, Copy, Debug, PartialEq, Eq, Hash, Structural)]
pub struct CallbackId {
    token: u64,
}

impl View for CallbackId {
    type V = u64;

    closed spec fn view(&self) -> u64 {
        self.token
    }
}

/// Interface for shutdown callbacks, implemented by the surrounding glue
/// for user-supplied code. A callback runs on the bridge's worker thread
/// under ordinary execution guarantees — it may allocate, lock and even
/// panic — and is never invoked concurrently with itself for one kind.
pub trait Handler {
    /// React to one shutdown notification of the given kind.
    fn handle(&mut self, kind: ShutdownType);
}

/// A live registration: the kinds it was made for and the identity of its
/// callback. Constructed only by [`Coordinator::register`]; handing it to
/// [`Coordinator::unregister`] releases the registration, and
/// [`ShutdownGuard::forget`] keeps the registration for the remainder of
/// the process lifetime.
pub struct ShutdownGuard {
    types: Vec<ShutdownType>,
    id: CallbackId,
}

impl ShutdownGuard {
    /// The kinds this guard registered for.
    pub closed spec fn types_spec(self) -> Seq<ShutdownType> {
        self.types@
    }

    /// The identity of the registered callback.
    pub closed spec fn id_spec(self) -> CallbackId {
        self.id
    }

    /// The kinds this guard registered for, for the caller's bookkeeping.
    pub fn kinds(&self) -> (kinds: &Vec<ShutdownType>)
        ensures
            kinds@ == self.types_spec(),
    {
        &self.types
    }

    /// The identity of the registered callback, under which the
    /// surrounding glue keys the actual callback value.
    pub fn callback_id(&self) -> (id: CallbackId)
        ensures
            id == self.id_spec(),
    {
        self.id
    }

    /// Keep the registration for the remainder of the process lifetime:
    /// the guard is consumed without releasing anything.
    pub fn forget(self) {
    }
}

/// Outcome of [`Coordinator::register`].
pub struct RegisterOutcome {
    /// The guard for the new registration.
    pub guard: ShutdownGuard,
    /// Kinds that this call activated, in the order they were listed: for
    /// each, the glue starts the restricted-context registration.
    pub newly_active: Vec<ShutdownType>,
    /// Whether this call activated the first kind overall, so the glue
    /// must start the bridge worker.
    pub started_worker: bool,
}

/// Outcome of [`Coordinator::unregister`].
pub struct ReleaseOutcome {
    /// Kinds deactivated by this call, in the order the guard listed them:
    /// for each, the glue stops the restricted-context registration.
    pub deactivated: Vec<ShutdownType>,
    /// Whether this call deactivated the last kind, so the glue must stop
    /// the bridge worker.
    pub stopped_worker: bool,
}

/// Decision for one notification arriving at the coordinator.
#[derive(Clone, Copy, Debug, PartialEq, Eq, Structural)]
pub enum DispatchDecision {
    /// Invoke the most recently registered callback for the kind, under a
    /// recovery boundary that absorbs a panic in the user code.
    Invoke {
        /// The identity of the callback to invoke.
        id: CallbackId,
    },
    /// No callback is registered for the kind: terminate the process with
    /// the fixed exit code.
    ExitProcess {
        /// The exit status to report; always
        /// [`TERMINATE_EXIT_CODE`].
        code: i32,
    },
}

/// The per-kind callback sequences and the registration mint.
pub struct Coordinator {
    entries: Vec<(ShutdownType, Vec<CallbackId>)>,
    next_token: u64,
}

/// No kind is active under table `m`.
pub open spec fn spec_idle(m: Map<ShutdownType, Seq<CallbackId>>) -> bool {
    forall|kind: ShutdownType| !m.dom().contains(kind)
}

/// Registration of one identity for one kind: append to the existing
/// sequence, or activate the kind with a one-element sequence.
pub open spec fn spec_register_one(
    m: Map<ShutdownType, Seq<CallbackId>>,
    kind: ShutdownType,
    id: CallbackId,
) -> Map<ShutdownType, Seq<CallbackId>> {
    if m.dom().contains(kind) {
        m.insert(kind, m[kind].push(id))
    } else {
        m.insert(kind, seq![id])
    }
}

/// Registration of one identity for a list of kinds, left to right.
pub open spec fn spec_register_all(
    m: Map<ShutdownType, Seq<CallbackId>>,
    kinds: Seq<ShutdownType>,
    id: CallbackId,
) -> Map<ShutdownType, Seq<CallbackId>>
    decreases kinds.len(),
{
    if kinds.len() == 0 {
        m
    } else {
        spec_register_one(spec_register_all(m, kinds.drop_last(), id), kinds.last(), id)
    }
}

/// The kinds of `kinds` not yet active under `dom0`, in listed order:
/// exactly the kinds a registration call activates.
pub open spec fn spec_newly_active(kinds: Seq<ShutdownType>, dom0: Set<ShutdownType>) -> Seq<
    ShutdownType,
>
    decreases kinds.len(),
{
    if kinds.len() == 0 {
        Seq::empty()
    } else {
        let rest = spec_newly_active(kinds.drop_last(), dom0);
        if dom0.contains(kinds.last()) {
            rest
        } else {
            rest.push(kinds.last())
        }
    }
}

/// Removal of the newest matching occurrence of `id` from a callback
/// sequence; an absent identity leaves the sequence unchanged.
pub open spec fn spec_pop_newest(callbacks: Seq<CallbackId>, id: CallbackId) -> Seq<CallbackId> {
    match callbacks.index_of_last(id) {
        Some(i) => callbacks.remove(i),
        None => callbacks,
    }
}

/// Release of one identity for one kind: pop the newest matching
/// occurrence, deactivating the kind once its sequence empties.
pub open spec fn spec_release_one(
    m: Map<ShutdownType, Seq<CallbackId>>,
    kind: ShutdownType,
    id: CallbackId,
) -> Map<ShutdownType, Seq<CallbackId>> {
    if !m.dom().contains(kind) {
        m
    } else {
        let rest = spec_pop_newest(m[kind], id);
        if rest.len() == 0 {
            m.remove(kind)
        } else {
            m.insert(kind, rest)
        }
    }
}

/// Release of one identity for a list of kinds, left to right.
pub open spec fn spec_release_all(
    m: Map<ShutdownType, Seq<CallbackId>>,
    kinds: Seq<ShutdownType>,
    id: CallbackId,
) -> Map<ShutdownType, Seq<CallbackId>>
    decreases kinds.len(),
{
    if kinds.len() == 0 {
        m
    } else {
        spec_release_one(spec_release_all(m, kinds.drop_last(), id), kinds.last(), id)
    }
}

/// Whether a release is legitimate: at every step the identity is still
/// registered for the kind about to be processed. Releasing an identity
/// that is absent where its guard says it should be is a logic error in
/// the surrounding program, not a runtime condition.
pub open spec fn spec_can_release(
    m: Map<ShutdownType, Seq<CallbackId>>,
    kinds: Seq<ShutdownType>,
    id: CallbackId,
) -> bool
    decreases kinds.len(),
{
    if kinds.len() == 0 {
        true
    } else {
        let m2 = spec_release_all(m, kinds.drop_last(), id);
        &&& spec_can_release(m, kinds.drop_last(), id)
        &&& m2.dom().contains(kinds.last())
        &&& m2[kinds.last()].contains(id)
    }
}

/// The kinds a release deactivates: those whose callback sequence empties
/// at their step, in the order the guard listed them.
pub open spec fn spec_deactivated(
    m: Map<ShutdownType, Seq<CallbackId>>,
    kinds: Seq<ShutdownType>,
    id: CallbackId,
) -> Seq<ShutdownType>
    decreases kinds.len(),
{
    if kinds.len() == 0 {
        Seq::empty()
    } else {
        let rest = spec_deactivated(m, kinds.drop_last(), id);
        let m2 = spec_release_all(m, kinds.drop_last(), id);
        let m3 = spec_release_one(m2, kinds.last(), id);
        if m2.dom().contains(kinds.last()) && !m3.dom().contains(kinds.last()) {
            rest.push(kinds.last())
        } else {
            rest
        }
    }
}

/// The decision for one notification of `kind`: the newest registered
/// callback, or process termination with the fixed code when none is
/// registered.
pub open spec fn spec_dispatch_decision(
    m: Map<ShutdownType, Seq<CallbackId>>,
    kind: ShutdownType,
) -> DispatchDecision {
    if m.dom().contains(kind) && m[kind].len() > 0 {
        DispatchDecision::Invoke { id: m[kind].last() }
    } else {
        DispatchDecision::ExitProcess { code: TERMINATE_EXIT_CODE }
    }
}

/// A callback sequence is well formed for mint counter `next` when it is
/// non-empty, holds no identity twice, and every token was minted earlier.
pub open spec fn kind_slot_ok(callbacks: Seq<CallbackId>, next: u64) -> bool {
    &&& callbacks.len() > 0
    &&& callbacks.no_duplicates()
    &&& forall|j: int| 0 <= j < callbacks.len() ==> (#[trigger] callbacks[j])@ < next
}

/// Every token registered anywhere under `m` was minted before `next`.
pub open spec fn map_tokens_lt(m: Map<ShutdownType, Seq<CallbackId>>, next: u64) -> bool {
    forall|kind: ShutdownType, j: int|
        #![trigger m[kind][j]]
        m.dom().contains(kind) && 0 <= j < m[kind].len() ==> m[kind][j]@ < next
}

/// Kinds a registration call does not name keep their state.
pub proof fn lemma_register_all_untouched(
    m: Map<ShutdownType, Seq<CallbackId>>,
    kinds: Seq<ShutdownType>,
    id: CallbackId,
    other: ShutdownType,
)
    requires
        !kinds.contains(other),
    ensures
        spec_register_all(m, kinds, id).dom().contains(other) == m.dom().contains(other),
        m.dom().contains(other) ==> spec_register_all(m, kinds, id)[other] == m[other],
    decreases kinds.len(),
{
    if kinds.len() > 0 {
        assert(!kinds.drop_last().contains(other)) by {
            if kinds.drop_last().contains(other) {
                let i = choose|i: int| 0 <= i < kinds.drop_last().len()
                    && kinds.drop_last()[i] == other;
                assert(kinds[i] == other);
            }
        }
        assert(kinds.last() != other) by {
            assert(kinds[kinds.len() - 1] == kinds.last());
        }
        lemma_register_all_untouched(m, kinds.drop_last(), id, other);
    }
}

impl View for Coordinator {
    type V = Map<ShutdownType, Seq<CallbackId>>;

    closed spec fn view(&self) -> Map<ShutdownType, Seq<CallbackId>> {
        assoc_map(self.entries_view())
    }
}

impl Coordinator {
    spec fn entries_view(self) -> Seq<(ShutdownType, Seq<CallbackId>)> {
        self.entries@.map_values(|e: (ShutdownType, Vec<CallbackId>)| (e.0, e.1@))
    }

    /// The token the next registration will receive.
    pub closed spec fn next_token_spec(self) -> u64 {
        self.next_token
    }

    /// Internal invariant: distinct kinds, and every callback sequence
    /// non-empty, duplicate-free and below the mint counter.
    pub closed spec fn wf(self) -> bool {
        &&& keys_unique(self.entries_view())
        &&& forall|i: int| 0 <= i < self.entries_view().len()
            ==> kind_slot_ok((#[trigger] self.entries_view()[i]).1, self.next_token)
    }

    /// A fresh coordinator: no kind active, worker not running.
    pub fn new() -> (coordinator: Coordinator)
        ensures
            coordinator.wf(),
            coordinator@ =~= Map::<ShutdownType, Seq<CallbackId>>::empty(),
            coordinator.next_token_spec() == 0,
    {
        Coordinator { entries: Vec::new(), next_token: 0 }
    }

    /// Index of the entry for `kind`, tied to the map view.
    fn find_index(&self, kind: ShutdownType) -> (found: Option<usize>)
        requires
            self.wf(),
        ensures
            match found {
                Some(i) => {
                    &&& i < self.entries@.len()
                    &&& self.entries@[i as int].0 == kind
                    &&& self@.dom().contains(kind)
                    &&& self@[kind] == self.entries@[i as int].1@
                },
                None => !self@.dom().contains(kind),
            },
    {
        let mut i: usize = 0;
        while i < self.entries.len()
            invariant
                self.wf(),
                i <= self.entries@.len(),
                forall|j: int| 0 <= j < i ==> (#[trigger] self.entries@[j]).0 != kind,
            decreases self.entries@.len() - i,
        {
            if self.entries[i].0 == kind {
                proof {
                    assert(self.entries_view()[i as int]
                        == (kind, self.entries@[i as int].1@));
                    lemma_assoc_map_get(self.entries_view(), i as int);
                }
                return Some(i);
            }
            i += 1;
        }
        proof {
            let ev = self.entries_view();
            lemma_assoc_map_dom(ev);
            assert forall|j: int| 0 <= j < ev.len() implies (#[trigger] ev[j]).0 != kind by {
                assert(ev[j].0 == self.entries@[j].0);
            }
        }
        None
    }

    /// Whether no kind is active.
    pub fn is_idle(&self) -> (idle: bool)
        requires
            self.wf(),
        ensures
            idle == spec_idle(self@),
    {
        let idle = self.entries.len() == 0;
        proof {
            lemma_assoc_map_dom(self.entries_view());
            if !idle {
                assert(self@.dom().contains(self.entries_view()[0].0));
            }
        }
        idle
    }

    /// Whether another identity can still be minted. The glue tests this
    /// before registering, since registration demands room in the counter.
    pub fn can_mint(&self) -> (ok: bool)
        ensures
            ok == (self.next_token_spec() < u64::MAX),
    {
        self.next_token < u64::MAX
    }

    /// The decision for one notification of `kind`, taken by the bridge
    /// worker under the coordinator lock. The coordinator itself is not
    /// changed: a callback's behaviour — even a panic, absorbed by the
    /// glue's recovery boundary — cannot unregister anything, so a later
    /// notification of the same kind is dispatched the same way.
    pub fn dispatch_decision(&self, kind: ShutdownType) -> (decision: DispatchDecision)
        requires
            self.wf(),
        ensures
            decision == spec_dispatch_decision(self@, kind),
    {
        match self.find_index(kind) {
            Some(i) => {
                let callbacks = &self.entries[i].1;
                if callbacks.len() > 0 {
                    DispatchDecision::Invoke { id: callbacks[callbacks.len() - 1] }
                } else {
                    DispatchDecision::ExitProcess { code: TERMINATE_EXIT_CODE }
                }
            },
            None => DispatchDecision::ExitProcess { code: TERMINATE_EXIT_CODE },
        }
    }

    /// Register one callback for every listed kind. Kinds listed are
    /// distinct, as a registration names a set of kinds. Returns the
    /// guard, the kinds this call activated (whose restricted-context
    /// registration the glue starts), and whether the bridge worker must
    /// be started because the first kind overall became active.
    pub fn register(&mut self, kinds: &Vec<ShutdownType>) -> (out: RegisterOutcome)
        requires
            old(self).wf(),
            old(self).next_token_spec() < u64::MAX,
            kinds@.no_duplicates(),
        ensures
            final(self).wf(),
            out.guard.id_spec()@ == old(self).next_token_spec(),
            out.guard.types_spec() == kinds@,
            final(self).next_token_spec() == old(self).next_token_spec() + 1,
            final(self)@ == spec_register_all(old(self)@, kinds@, out.guard.id_spec()),
            out.newly_active@ == spec_newly_active(kinds@, old(self)@.dom()),
            out.started_worker == (spec_idle(old(self)@) && kinds@.len() > 0),
            forall|kind: ShutdownType| #[trigger] old(self)@.dom().contains(kind)
                ==> !old(self)@[kind].contains(out.guard.id_spec()),
    {
        let started_worker = self.is_idle() && kinds.len() > 0;
        let id = CallbackId { token: self.next_token };
        self.next_token = self.next_token + 1;
        proof {
            lemma_assoc_map_dom(old(self).entries_view());
            assert forall|kind: ShutdownType| #[trigger] old(self)@.dom().contains(kind)
                implies !old(self)@[kind].contains(id) by {
                let i = choose|i: int| 0 <= i < old(self).entries_view().len()
                    && (#[trigger] old(self).entries_view()[i]).0 == kind;
                lemma_assoc_map_get(old(self).entries_view(), i);
                if old(self)@[kind].contains(id) {
                    let j = choose|j: int| 0 <= j < old(self)@[kind].len()
                        && old(self)@[kind][j] == id;
                    assert(old(self)@[kind][j]@ < id@);
                }
            }
            assert(self.entries_view() == old(self).entries_view());
            assert(map_tokens_lt(old(self)@, old(self).next_token_spec())) by {
                assert forall|kind: ShutdownType, j: int|
                    #![trigger old(self)@[kind][j]]
                    old(self)@.dom().contains(kind) && 0 <= j < old(self)@[kind].len()
                    implies old(self)@[kind][j]@ < old(self).next_token_spec() by {
                    let i = choose|i: int| 0 <= i < old(self).entries_view().len()
                        && (#[trigger] old(self).entries_view()[i]).0 == kind;
                    lemma_assoc_map_get(old(self).entries_view(), i);
                }
            }
        }
        let mut newly_active: Vec<ShutdownType> = Vec::new();
        let mut k: usize = 0;
        while k < kinds.len()
            invariant
                self.wf(),
                k <= kinds@.len(),
                kinds@.no_duplicates(),
                id@ == old(self).next_token_spec(),
                self.next_token_spec() == old(self).next_token_spec() + 1,
                map_tokens_lt(old(self)@, old(self).next_token_spec()),
                self@ =~= spec_register_all(old(self)@, kinds@.take(k as int), id),
                newly_active@ =~= spec_newly_active(kinds@.take(k as int), old(self)@.dom()),
                forall|x: ShutdownType| #[trigger] self@.dom().contains(x)
                    <==> old(self)@.dom().contains(x) || kinds@.take(k as int).contains(x),
            decreases kinds@.len() - k,
        {
            let kind = kinds[k];
            let ghost m_before = self@;
            proof {
                assert(kinds@.take(k as int + 1).drop_last() =~= kinds@.take(k as int));
                assert(kinds@.take(k as int + 1).last() == kinds@[k as int]);
                lemma_take_succ_contains(kinds@, k as int);
                assert(!kinds@.take(k as int).contains(kind)) by {
                    if kinds@.take(k as int).contains(kind) {
                        let i = choose|i: int| 0 <= i < kinds@.take(k as int).len()
                            && kinds@.take(k as int)[i] == kind;
                        assert(kinds@[i] == kinds@[k as int]);
                    }
                }
            }
            match self.find_index(kind) {
                Some(i) => {
                    let ghost ev0 = self.entries_view();
                    let (kind_e, callbacks) = self.entries.remove(i);
                    let mut callbacks = callbacks;
                    callbacks.push(id);
                    self.entries.insert(i, (kind_e, callbacks));
                    proof {
                        let new_cbs = ev0[i as int].1.push(id);
                        assert(self.entries_view() =~= ev0.update(i as int, (kind, new_cbs)));
                        lemma_keys_unique_update(ev0, i as int, new_cbs);
                        lemma_assoc_map_update(ev0, i as int, new_cbs);
                        assert(m_before[kind] == ev0[i as int].1);
                        assert(self@ =~= spec_register_one(m_before, kind, id));
                        lemma_register_all_untouched(
                            old(self)@,
                            kinds@.take(k as int),
                            id,
                            kind,
                        );
                        assert(m_before[kind] == old(self)@[kind]);
                        assert(!m_before[kind].contains(id)) by {
                            if m_before[kind].contains(id) {
                                let j = choose|j: int| 0 <= j < old(self)@[kind].len()
                                    && old(self)@[kind][j] == id;
                                assert(old(self)@[kind][j]@ < old(self).next_token_spec());
                            }
                        }
                        assert(new_cbs.no_duplicates()) by {
                            assert forall|a: int, b: int|
                                0 <= a < b < new_cbs.len()
                                implies new_cbs[a] != new_cbs[b] by {
                                if b == new_cbs.len() - 1 {
                                    assert(ev0[i as int].1[a] == new_cbs[a]);
                                    assert(m_before[kind].contains(new_cbs[a]));
                                }
                            }
                        }
                        assert forall|a: int| 0 <= a < self.entries_view().len()
                            implies kind_slot_ok(
                                (#[trigger] self.entries_view()[a]).1,
                                self.next_token,
                            ) by {
                            if a != i {
                                assert(self.entries_view()[a] == ev0[a]);
                            }
                        }
                    }
                },
                None => {
                    let ghost ev0 = self.entries_view();
                    newly_active.push(kind);
                    let mut callbacks: Vec<CallbackId> = Vec::new();
                    callbacks.push(id);
                    self.entries.push((kind, callbacks));
                    proof {
                        let new_cbs = seq![id];
                        assert(self.entries_view() =~= ev0.push((kind, new_cbs)));
                        lemma_assoc_map_dom(ev0);
                        assert forall|a: int| 0 <= a < ev0.len()
                            implies (#[trigger] ev0[a]).0 != kind by {
                            if ev0[a].0 == kind {
                                assert(m_before.dom().contains(kind));
                            }
                        }
                        lemma_keys_unique_push(ev0, kind, new_cbs);
                        lemma_assoc_map_push(ev0, kind, new_cbs);
                        assert(self@ =~= spec_register_one(m_before, kind, id));
                        assert forall|a: int| 0 <= a < self.entries_view().len()
                            implies kind_slot_ok(
                                (#[trigger] self.entries_view()[a]).1,
                                self.next_token,
                            ) by {
                            if a < ev0.len() {
                                assert(self.entries_view()[a] == ev0[a]);
                            }
                        }
                    }
                },
            }
            k += 1;
        }
        proof {
            assert(kinds@.take(kinds@.len() as int) =~= kinds@);
        }
        let mut types: Vec<ShutdownType> = Vec::new();
        let mut c: usize = 0;
        while c < kinds.len()
            invariant
                c <= kinds@.len(),
                types@ =~= kinds@.take(c as int),
            decreases kinds@.len() - c,
        {
            proof {
                assert(kinds@.take(c as int + 1) =~= kinds@.take(c as int).push(
                    kinds@[c as int],
                ));
            }
            types.push(kinds[c]);
            c += 1;
        }
        proof {
            assert(kinds@.take(kinds@.len() as int) =~= kinds@);
        }
        RegisterOutcome {
            guard: ShutdownGuard { types, id },
            newly_active,
            started_worker,
        }
    }

    /// Release a registration: pop its callback from every kind the guard
    /// names, deactivate kinds whose sequence empties, and report whether
    /// the bridge worker must be stopped because no kind remains active.
    /// The guard's callback must still be registered wherever the guard
    /// says it is — see [`spec_can_release`] and
    /// [`lemma_second_release_detected`].
    pub fn unregister(&mut self, guard: ShutdownGuard) -> (out: ReleaseOutcome)
        requires
            old(self).wf(),
            spec_can_release(old(self)@, guard.types_spec(), guard.id_spec()),
        ensures
            final(self).wf(),
            final(self)@ == spec_release_all(old(self)@, guard.types_spec(), guard.id_spec()),
            out.deactivated@ == spec_deactivated(
                old(self)@,
                guard.types_spec(),
                guard.id_spec(),
            ),
            out.stopped_worker == (!spec_idle(old(self)@) && spec_idle(final(self)@)),
            final(self).next_token_spec() == old(self).next_token_spec(),
    {
        let was_active = !self.is_idle();
        let ShutdownGuard { types, id } = guard;
        let mut deactivated: Vec<ShutdownType> = Vec::new();
        let mut k: usize = 0;
        while k < types.len()
            invariant
                self.wf(),
                k <= types@.len(),
                self.next_token_spec() == old(self).next_token_spec(),
                spec_can_release(old(self)@, types@, id),
                self@ =~= spec_release_all(old(self)@, types@.take(k as int), id),
                deactivated@ =~= spec_deactivated(old(self)@, types@.take(k as int), id),
            decreases types@.len() - k,
        {
            let kind = types[k];
            let ghost m_before = self@;
            proof {
                assert(types@.take(k as int + 1).drop_last() =~= types@.take(k as int));
                assert(types@.take(k as int + 1).last() == types@[k as int]);
                lemma_can_release_prefix(old(self)@, types@, id, k as int + 1);
                assert(m_before.dom().contains(kind));
                assert(m_before[kind].contains(id));
            }
            match self.find_index(kind) {
                Some(i) => {
                    let ghost ev0 = self.entries_view();
                    let (kind_e, callbacks) = self.entries.remove(i);
                    let mut callbacks = callbacks;
                    match last_callback_index(&callbacks, id) {
                        Some(j) => {
                            proof {
                                callbacks@.index_of_last_ensures(id);
                            }
                            callbacks.remove(j);
                            proof {
                                assert(spec_pop_newest(ev0[i as int].1, id)
                                    == ev0[i as int].1.remove(j as int));
                            }
                            if callbacks.len() == 0 {
                                deactivated.push(kind);
                                proof {
                                    lemma_keys_unique_remove(ev0, i as int);
                                    lemma_assoc_map_remove(ev0, i as int);
                                    assert(self.entries_view() =~= ev0.remove(i as int));
                                    assert(self@ =~= m_before.remove(kind));
                                    assert(self@ =~= spec_release_one(m_before, kind, id));
                                    assert forall|a: int| 0 <= a < self.entries_view().len()
                                        implies kind_slot_ok(
                                            (#[trigger] self.entries_view()[a]).1,
                                            self.next_token,
                                        ) by {
                                        let a0: int = if a < i { a } else { a + 1 };
                                        assert(self.entries_view()[a] == ev0[a0]);
                                    }
                                }
                            } else {
                                self.entries.insert(i, (kind_e, callbacks));
                                proof {
                                    let rest = ev0[i as int].1.remove(j as int);
                                    assert(self.entries_view()
                                        =~= ev0.update(i as int, (kind, rest)));
                                    lemma_keys_unique_update(ev0, i as int, rest);
                                    lemma_assoc_map_update(ev0, i as int, rest);
                                    assert(self@ =~= spec_release_one(m_before, kind, id));
                                    assert forall|a: int| 0 <= a < self.entries_view().len()
                                        implies kind_slot_ok(
                                            (#[trigger] self.entries_view()[a]).1,
                                            self.next_token,
                                        ) by {
                                        if a != i {
                                            assert(self.entries_view()[a] == ev0[a]);
                                        } else {
                                            lemma_no_dup_remove(ev0[i as int].1, j as int);
                                            ev0[i as int].1.remove_ensures(j as int);
                                            assert(forall|b: int|
                                                0 <= b < ev0[i as int].1.len()
                                                    ==> (#[trigger] ev0[i as int].1[b])@
                                                        < self.next_token);
                                        }
                                    }
                                }
                            }
                        },
                        None => {
                            proof {
                                callbacks@.index_of_last_ensures(id);
                                assert(false);
                            }
                            self.entries.insert(i, (kind_e, callbacks));
                        },
                    }
                },
                None => {
                    proof {
                        assert(false);
                    }
                },
            }
            k += 1;
        }
        proof {
            assert(types@.take(types@.len() as int) =~= types@);
        }
        let stopped_worker = was_active && self.is_idle();
        ReleaseOutcome { deactivated, stopped_worker }
    }
}

/// Index of the newest occurrence of `id` in a callback sequence, tied to
/// the spec-level search.
fn last_callback_index(callbacks: &Vec<CallbackId>, id: CallbackId) -> (found: Option<usize>)
    ensures
        match found {
            Some(j) => callbacks@.index_of_last(id) == Some(j as int),
            None => callbacks@.index_of_last(id) is None,
        },
{
    let mut j: usize = callbacks.len();
    while j > 0
        invariant
            j <= callbacks@.len(),
            forall|t: int| j <= t < callbacks@.len() ==> (#[trigger] callbacks@[t]) != id,
        decreases j,
    {
        if callbacks[j - 1] == id {
            proof {
                callbacks@.index_of_last_ensures(id);
                assert(callbacks@.contains(id)) by {
                    assert(callbacks@[j as int - 1] == id);
                }
                let idx = choose|idx: int| callbacks@.index_of_last(id) == Some(idx);
                assert(callbacks@[idx] == id);
                if idx < j as int - 1 {
                    assert(callbacks@[j as int - 1] != id);
                }
            }
            return Some(j - 1);
        }
        j -= 1;
    }
    proof {
        callbacks@.index_of_last_ensures(id);
        if callbacks@.contains(id) {
            let t = choose|t: int| 0 <= t < callbacks@.len() && callbacks@[t] == id;
            assert(false);
        }
    }
    None
}

/// A legitimate release is legitimate at every prefix of its kinds.
pub proof fn lemma_can_release_prefix(
    m: Map<ShutdownType, Seq<CallbackId>>,
    kinds: Seq<ShutdownType>,
    id: CallbackId,
    j: int,
)
    requires
        0 <= j <= kinds.len(),
        spec_can_release(m, kinds, id),
    ensures
        spec_can_release(m, kinds.take(j), id),
    decreases kinds.len(),
{
    if j == kinds.len() {
        assert(kinds.take(j) =~= kinds);
    } else {
        assert(kinds.drop_last().take(j) =~= kinds.take(j));
        lemma_can_release_prefix(m, kinds.drop_last(), id, j);
    }
}

/// Distinct elements survive removing one.
pub proof fn lemma_no_dup_remove(s: Seq<CallbackId>, i: int)
    requires
        s.no_duplicates(),
        0 <= i < s.len(),
    ensures
        s.remove(i).no_duplicates(),
{
    s.remove_ensures(i);
    assert forall|a: int, b: int| 0 <= a < b < s.remove(i).len()
        implies s.remove(i)[a] != s.remove(i)[b] by {
        let a0: int = if a < i { a } else { a + 1 };
        let b0: int = if b < i { b } else { b + 1 };
        assert(s.remove(i)[a] == s[a0]);
        assert(s.remove(i)[b] == s[b0]);
    }
}

/// Popping an identity that occurs (and occurs only once, as every
/// well-formed sequence guarantees) leaves the kind without it: either the
/// kind deactivates or its remaining sequence no longer contains the
/// identity.
pub proof fn lemma_release_one_clears(
    m: Map<ShutdownType, Seq<CallbackId>>,
    kind: ShutdownType,
    id: CallbackId,
)
    requires
        m.dom().contains(kind),
        m[kind].contains(id),
        m[kind].no_duplicates(),
    ensures
        !(spec_release_one(m, kind, id).dom().contains(kind)
            && spec_release_one(m, kind, id)[kind].contains(id)),
{
    let s = m[kind];
    s.index_of_last_ensures(id);
    let i = choose|i: int| s.index_of_last(id) == Some(i);
    s.remove_ensures(i);
    let rest = s.remove(i);
    if rest.len() > 0 {
        if rest.contains(id) {
            let a = choose|a: int| 0 <= a < rest.len() && rest[a] == id;
            let a0: int = if a < i { a } else { a + 1 };
            assert(s[a0] == id);
            assert(s[i] == id);
        }
    }
}

/// An identity absent for a kind stays absent through any further release.
pub proof fn lemma_release_all_keeps_absent(
    m: Map<ShutdownType, Seq<CallbackId>>,
    kinds: Seq<ShutdownType>,
    id: CallbackId,
    kind: ShutdownType,
)
    requires
        !(m.dom().contains(kind) && m[kind].contains(id)),
    ensures
        !(spec_release_all(m, kinds, id).dom().contains(kind)
            && spec_release_all(m, kinds, id)[kind].contains(id)),
    decreases kinds.len(),
{
    if kinds.len() > 0 {
        lemma_release_all_keeps_absent(m, kinds.drop_last(), id, kind);
        let m2 = spec_release_all(m, kinds.drop_last(), id);
        let last = kinds.last();
        if last == kind && m2.dom().contains(kind) {
            m2[kind].index_of_last_ensures(id);
        }
    }
}

/// Duplicate-free callback sequences stay duplicate-free through releases.
pub proof fn lemma_release_all_keeps_nodup(
    m: Map<ShutdownType, Seq<CallbackId>>,
    kinds: Seq<ShutdownType>,
    id: CallbackId,
)
    requires
        forall|k: ShutdownType| #[trigger] m.dom().contains(k) ==> m[k].no_duplicates(),
    ensures
        forall|k: ShutdownType| #[trigger] spec_release_all(m, kinds, id).dom().contains(k)
            ==> spec_release_all(m, kinds, id)[k].no_duplicates(),
    decreases kinds.len(),
{
    if kinds.len() > 0 {
        lemma_release_all_keeps_nodup(m, kinds.drop_last(), id);
        let m2 = spec_release_all(m, kinds.drop_last(), id);
        let last = kinds.last();
        if m2.dom().contains(last) {
            m2[last].index_of_last_ensures(id);
            if m2[last].contains(id) {
                let i = choose|i: int| m2[last].index_of_last(id) == Some(i);
                lemma_no_dup_remove(m2[last], i);
            }
        }
    }
}

/// Releasing the same registration twice is detectable: once a guard's
/// callback has been released from every kind it named, the precondition
/// for releasing that guard again cannot hold — the second release fails
/// instead of silently succeeding.
pub proof fn lemma_second_release_detected(
    m: Map<ShutdownType, Seq<CallbackId>>,
    kinds: Seq<ShutdownType>,
    id: CallbackId,
)
    requires
        kinds.len() > 0,
        spec_can_release(m, kinds, id),
        forall|k: ShutdownType| #[trigger] m.dom().contains(k) ==> m[k].no_duplicates(),
    ensures
        !spec_can_release(spec_release_all(m, kinds, id), kinds, id),
{
    let m1 = spec_release_all(m, kinds, id);
    let last = kinds.last();
    let m2a = spec_release_all(m, kinds.drop_last(), id);
    lemma_release_all_keeps_nodup(m, kinds.drop_last(), id);
    lemma_release_one_clears(m2a, last, id);
    if spec_can_release(m1, kinds, id) {
        lemma_release_all_keeps_absent(m1, kinds.drop_last(), id, last);
        assert(false);
    }
}

/// The most recent registration is the active one: right after a callback
/// is registered for a kind, dispatching that kind invokes it, whatever
/// was registered before.
pub proof fn lemma_newest_registration_dispatches(
    m: Map<ShutdownType, Seq<CallbackId>>,
    kind: ShutdownType,
    id: CallbackId,
)
    ensures
        spec_dispatch_decision(spec_register_one(m, kind, id), kind)
            == (DispatchDecision::Invoke { id }),
{
}

/// A kind's lifecycle closes cleanly: registering a fresh identity and
/// releasing it right away is a legitimate release and leaves the table
/// exactly as it was — in particular, a kind activated by the
/// registration returns to inactive.
pub proof fn lemma_register_release_round_trip(
    m: Map<ShutdownType, Seq<CallbackId>>,
    kind: ShutdownType,
    id: CallbackId,
)
    requires
        m.dom().contains(kind) ==> !m[kind].contains(id) && m[kind].len() > 0,
    ensures
        spec_can_release(spec_register_one(m, kind, id), seq![kind], id),
        spec_release_one(spec_register_one(m, kind, id), kind, id) =~= m,
{
    let m1 = spec_register_one(m, kind, id);
    assert(m1[kind].last() == id);
    assert(m1[kind].contains(id)) by {
        assert(m1[kind][m1[kind].len() - 1] == id);
    }
    m1[kind].index_of_last_ensures(id);
    let i = choose|i: int| m1[kind].index_of_last(id) == Some(i);
    assert(i == m1[kind].len() - 1) by {
        if i < m1[kind].len() - 1 {
            assert(m1[kind][m1[kind].len() - 1] != id);
        }
    }
    if m.dom().contains(kind) {
        let s = m[kind];
        assert(m1[kind] == s.push(id));
        assert(s.push(id).remove(s.len() as int) =~= s);
        assert(spec_pop_newest(m1[kind], id) =~= s);
        assert(spec_release_one(m1, kind, id) =~= m.insert(kind, s));
        assert(m.insert(kind, s) =~= m);
    } else {
        assert(m1[kind] == seq![id]);
        assert(seq![id].remove(0) =~= Seq::<CallbackId>::empty());
        assert(spec_release_one(m1, kind, id) =~= m1.remove(kind));
        assert(m1.remove(kind) =~= m);
    }
    assert(spec_can_release(m1, seq![kind], id)) by {
        assert(seq![kind].drop_last().len() == 0);
        assert(spec_can_release(m1, seq![kind].drop_last(), id));
        assert(spec_release_all(m1, seq![kind].drop_last(), id) == m1);
        assert(seq![kind].last() == kind);
        assert(m1.dom().contains(kind));
    }
}

} // verus!
