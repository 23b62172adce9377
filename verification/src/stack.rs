//! The per-signal-number handler stack.
//!
//! A [`HandlerTable`] maps each raw signal number to a [`SignalSlot`]: the
//! ordered sequence of registered handler identities (top = most recently
//! pushed) together with the previously installed platform handler captured
//! for delegation. Handlers themselves are arbitrary restricted-context
//! callbacks held by the surrounding glue; here each one is represented by
//! the opaque [`HandlerId`] minted at registration, which is also the token
//! used for identity-based removal.
//!
//! The table is specified through the finite map it denotes
//! (signal number to [`SlotView`]); every mutation is pinned to a spec-level
//! transformer on that map, and the dispatch-order laws are proved over the
//! same transformers.

use vstd::prelude::*;
use crate::assoc::{
    assoc_map, keys_unique, lemma_assoc_map_dom, lemma_assoc_map_get, lemma_assoc_map_push,
    lemma_assoc_map_remove, lemma_assoc_map_update, lemma_keys_unique_push,
    lemma_keys_unique_remove, lemma_keys_unique_update, lemma_take_succ_contains,
};
use crate::backend::PrevHandler;

verus! {

/// An opaque, comparable token identifying one registered handler instance.
/// Equality is identity of registration, never structural equality of the
/// underlying callback: the table mints a fresh token for every
/// registration call.
#[derive(Clone, Copy, Debug, PartialEq, Eq, Hash, Structural)]
pub struct HandlerId {
    token: u64,
}

impl View for HandlerId {
    type V = u64;

    closed spec fn view(&self) -> u64 {
        self.token
    }
}

/// Interface for restricted-context signal handlers, implemented by the
/// surrounding glue for its callback values. The signal number is passed in;
/// the handler reports `true` when it consumed the signal, in which case no
/// further handler on the stack is tried. Nothing here calls through this
/// trait: dispatch is resolved over the reports (see [`spec_resolve`]).
pub trait Handler {
    /// React to a delivered signal; report whether it was consumed.
    fn on_signal(&mut self, signum: i32) -> bool;
}

/// Spec-level contents of one signal slot.
#[verifier::ext_equal]
pub struct SlotView {
    /// Registered handler identities, oldest first; the top of the stack is
    /// the last element.
    pub stack: Seq<HandlerId>,
    /// The previously installed platform handler captured for this number.
    pub prev: PrevHandler,
}

/// One signal number's record: the handler stack and the captured previous
/// platform handler.
#[derive(Clone)]
pub struct SignalSlot {
    stack: Vec<HandlerId>,
    prev: PrevHandler,
}

impl View for SignalSlot {
    type V = SlotView;

    closed spec fn view(&self) -> SlotView {
        SlotView { stack: self.stack@, prev: self.prev }
    }
}

/// The table of handler stacks, one per registered signal number. Slots are
/// created lazily on first registration for a number and removed as soon as
/// their stack empties. Cloneable so that the glue can hold it in the
/// two-slot cell, whose commit copies the table between the slots.
#[derive(Clone)]
pub struct HandlerTable {
    entries: Vec<(i32, SignalSlot)>,
    next_token: u64,
}

/// Result of [`HandlerTable::add_handler`]: the identity minted for the
/// registration, and the signal numbers that transitioned from "not ours" to
/// "ours" and therefore need the process trampoline installed.
pub struct AddOutcome {
    /// The identity of the new registration, for later removal.
    pub id: HandlerId,
    /// Signal numbers whose slot was created by this call, in first-seen
    /// order and without repetition.
    pub needs_install: Vec<i32>,
}

/// Outcome of dispatching one notification for a signal number.
#[derive(Clone, Copy, Debug, PartialEq, Eq, Structural)]
pub enum DispatchOutcome {
    /// The number has no slot: the notification is not ours and dispatch
    /// does nothing with it.
    NotOurs,
    /// A handler consumed the notification; no further handler was tried.
    Consumed {
        /// The identity of the consuming handler.
        id: HandlerId,
    },
    /// Every handler declined: delegate once to the captured previous
    /// platform handler.
    Delegate,
}

impl HandlerTable {
    spec fn entries_view(self) -> Seq<(i32, SlotView)> {
        self.entries@.map_values(|e: (i32, SignalSlot)| (e.0, e.1@))
    }

    /// The token the next registration will receive. Exposed so that callers
    /// can conclude that identities minted by different calls differ.
    pub closed spec fn next_token_spec(self) -> u64 {
        self.next_token
    }

    /// Internal invariant: distinct signal numbers, no empty slot, and every
    /// registered token below the mint counter.
    pub closed spec fn wf(self) -> bool {
        &&& keys_unique(self.entries_view())
        &&& forall|i: int| 0 <= i < self.entries_view().len()
            ==> slot_ok((#[trigger] self.entries_view()[i]).1, self.next_token)
    }

    /// An empty table: no signal number is ours.
    pub fn new() -> (table: HandlerTable)
        ensures
            table.wf(),
            table@ =~= Map::<i32, SlotView>::empty(),
            table.next_token_spec() == 0,
    {
        HandlerTable { entries: Vec::new(), next_token: 0 }
    }

    /// Index of the entry for `signum`, tied to the map view.
    fn find_index(&self, signum: i32) -> (found: Option<usize>)
        requires
            self.wf(),
        ensures
            match found {
                Some(i) => {
                    &&& i < self.entries@.len()
                    &&& self.entries@[i as int].0 == signum
                    &&& self@.dom().contains(signum)
                    &&& self@[signum] == self.entries@[i as int].1@
                },
                None => !self@.dom().contains(signum),
            },
    {
        let mut i: usize = 0;
        while i < self.entries.len()
            invariant
                self.wf(),
                i <= self.entries@.len(),
                forall|j: int| 0 <= j < i ==> (#[trigger] self.entries@[j]).0 != signum,
            decreases self.entries@.len() - i,
        {
            if self.entries[i].0 == signum {
                proof {
                    assert(self.entries_view()[i as int]
                        == (signum, self.entries@[i as int].1@));
                    lemma_assoc_map_get(self.entries_view(), i as int);
                }
                return Some(i);
            }
            i += 1;
        }
        proof {
            let ev = self.entries_view();
            lemma_assoc_map_dom(ev);
            assert forall|j: int| 0 <= j < ev.len() implies (#[trigger] ev[j]).0 != signum by {
                assert(ev[j].0 == self.entries@[j].0);
            }
        }
        None
    }

    /// Whether the table has a slot for `signum`.
    pub fn has_slot(&self, signum: i32) -> (present: bool)
        requires
            self.wf(),
        ensures
            present == self@.dom().contains(signum),
    {
        self.find_index(signum).is_some()
    }

    /// The captured previous platform handler for `signum`.
    pub fn prev_of(&self, signum: i32) -> (prev: PrevHandler)
        requires
            self.wf(),
            self@.dom().contains(signum),
        ensures
            prev == self@[signum].prev,
    {
        match self.find_index(signum) {
            Some(i) => self.entries[i].1.prev,
            None => PrevHandler::Default,
        }
    }

    /// The order in which a notification for `signum` tries the registered
    /// handlers: newest registration first.
    pub fn dispatch_order(&self, signum: i32) -> (order: Vec<HandlerId>)
        requires
            self.wf(),
        ensures
            order@ == spec_dispatch_order(self@, signum),
    {
        let mut order: Vec<HandlerId> = Vec::new();
        match self.find_index(signum) {
            Some(i) => {
                let stack = &self.entries[i].1.stack;
                let ghost st = stack@;
                let mut j: usize = stack.len();
                while j > 0
                    invariant
                        j <= st.len(),
                        stack@ == st,
                        order@ =~= st.skip(j as int).reverse(),
                    decreases j,
                {
                    order.push(stack[j - 1]);
                    proof {
                        assert(st.skip(j - 1 as int) =~= seq![st[j - 1]] + st.skip(j as int));
                        assert(st.skip(j - 1 as int).reverse()
                            =~= st.skip(j as int).reverse().push(st[j - 1]));
                    }
                    j -= 1;
                }
                proof {
                    assert(st.skip(0) =~= st);
                }
            },
            None => {},
        }
        order
    }

    /// Whether another identity can still be minted. The glue tests this
    /// before registering, since registration demands room in the counter.
    pub fn can_mint(&self) -> (ok: bool)
        ensures
            ok == (self.next_token_spec() < u64::MAX),
    {
        self.next_token < u64::MAX
    }

    /// The handler `depth` places below the top of `signum`'s stack: the
    /// one dispatch tries after `depth` handlers have declined. The
    /// restricted-context walk iterates with this instead of materialising
    /// the whole order, since it must not allocate.
    pub fn handler_at(&self, signum: i32, depth: usize) -> (found: Option<HandlerId>)
        requires
            self.wf(),
        ensures
            match found {
                Some(id) => {
                    &&& depth < spec_dispatch_order(self@, signum).len()
                    &&& id == spec_dispatch_order(self@, signum)[depth as int]
                },
                None => depth >= spec_dispatch_order(self@, signum).len(),
            },
    {
        match self.find_index(signum) {
            Some(i) => {
                let stack = &self.entries[i].1.stack;
                if depth < stack.len() {
                    Some(stack[stack.len() - 1 - depth])
                } else {
                    None
                }
            },
            None => None,
        }
    }

    /// Push one new registration onto the stack of every listed signal
    /// number (a number listed twice is pushed twice), creating slots
    /// lazily. Returns the minted identity, and the numbers that
    /// transitioned from "not ours" to "ours", whose captured platform
    /// handler the caller records afterwards with
    /// [`HandlerTable::set_prev`].
    pub fn add_handler(&mut self, signums: &Vec<i32>) -> (out: AddOutcome)
        requires
            old(self).wf(),
            old(self).next_token_spec() < u64::MAX,
        ensures
            final(self).wf(),
            out.id@ == old(self).next_token_spec(),
            final(self).next_token_spec() == old(self).next_token_spec() + 1,
            final(self)@ == spec_add_all(old(self)@, signums@, out.id),
            out.needs_install@ == spec_fresh_signums(signums@, old(self)@.dom()),
            forall|s: i32| #[trigger] old(self)@.dom().contains(s)
                ==> !old(self)@[s].stack.contains(out.id),
    {
        let id = HandlerId { token: self.next_token };
        self.next_token = self.next_token + 1;
        proof {
            lemma_assoc_map_dom(old(self).entries_view());
            assert forall|s: i32| #[trigger] old(self)@.dom().contains(s)
                implies !old(self)@[s].stack.contains(id) by {
                let i = choose|i: int| 0 <= i < old(self).entries_view().len()
                    && (#[trigger] old(self).entries_view()[i]).0 == s;
                lemma_assoc_map_get(old(self).entries_view(), i);
                if old(self)@[s].stack.contains(id) {
                    let j = choose|j: int| 0 <= j < old(self)@[s].stack.len()
                        && old(self)@[s].stack[j] == id;
                    assert(old(self)@[s].stack[j]@ < id@);
                }
            }
            assert(self.entries_view() == old(self).entries_view());
        }
        let mut needs_install: Vec<i32> = Vec::new();
        let mut k: usize = 0;
        while k < signums.len()
            invariant
                self.wf(),
                k <= signums@.len(),
                id@ == old(self).next_token_spec(),
                self.next_token_spec() == old(self).next_token_spec() + 1,
                self@ =~= spec_add_all(old(self)@, signums@.take(k as int), id),
                needs_install@ =~= spec_fresh_signums(signums@.take(k as int), old(self)@.dom()),
                forall|x: i32| #[trigger] self@.dom().contains(x)
                    <==> old(self)@.dom().contains(x) || signums@.take(k as int).contains(x),
            decreases signums@.len() - k,
        {
            let s = signums[k];
            let ghost m_before = self@;
            proof {
                assert(signums@.take(k as int + 1).drop_last() =~= signums@.take(k as int));
                assert(signums@.take(k as int + 1).last() == signums@[k as int]);
                lemma_take_succ_contains(signums@, k as int);
            }
            match self.find_index(s) {
                Some(i) => {
                    let ghost ev0 = self.entries_view();
                    let (signum_e, slot) = self.entries.remove(i);
                    let SignalSlot { mut stack, prev } = slot;
                    stack.push(id);
                    self.entries.insert(i, (signum_e, SignalSlot { stack, prev }));
                    proof {
                        let new_slot = SlotView { stack: ev0[i as int].1.stack.push(id), prev: ev0[i as int].1.prev };
                        assert(self.entries_view() =~= ev0.update(i as int, (s, new_slot)));
                        lemma_keys_unique_update(ev0, i as int, new_slot);
                        lemma_assoc_map_update(ev0, i as int, new_slot);
                        assert(self@ =~= m_before.insert(s, new_slot));
                        assert(m_before[s] == ev0[i as int].1);
                        assert(self@ =~= spec_add_one(m_before, s, id));
                        assert forall|a: int| 0 <= a < self.entries_view().len()
                            implies slot_ok(
                                (#[trigger] self.entries_view()[a]).1,
                                self.next_token,
                            ) by {
                            if a != i {
                                assert(self.entries_view()[a] == ev0[a]);
                            }
                        }
                    }
                },
                None => {
                    let ghost ev0 = self.entries_view();
                    needs_install.push(s);
                    let mut stack: Vec<HandlerId> = Vec::new();
                    stack.push(id);
                    self.entries.push((s, SignalSlot { stack, prev: PrevHandler::Default }));
                    proof {
                        let new_slot = SlotView { stack: seq![id], prev: PrevHandler::Default };
                        assert(self.entries_view() =~= ev0.push((s, new_slot)));
                        lemma_assoc_map_dom(ev0);
                        assert forall|a: int| 0 <= a < ev0.len()
                            implies (#[trigger] ev0[a]).0 != s by {
                            if ev0[a].0 == s {
                                assert(m_before.dom().contains(s));
                            }
                        }
                        lemma_keys_unique_push(ev0, s, new_slot);
                        lemma_assoc_map_push(ev0, s, new_slot);
                        assert(self@ =~= spec_add_one(m_before, s, id));
                        assert forall|a: int| 0 <= a < self.entries_view().len()
                            implies slot_ok(
                                (#[trigger] self.entries_view()[a]).1,
                                self.next_token,
                            ) by {
                            if a < ev0.len() {
                                assert(self.entries_view()[a] == ev0[a]);
                            }
                        }
                    }
                },
            }
            k += 1;
        }
        proof {
            assert(signums@.take(signums@.len() as int) =~= signums@);
        }
        AddOutcome { id, needs_install }
    }

    /// Record the platform handler captured for `signum` after its
    /// trampoline was installed; the registration sequence is untouched.
    pub fn set_prev(&mut self, signum: i32, prev: PrevHandler)
        requires
            old(self).wf(),
            old(self)@.dom().contains(signum),
        ensures
            final(self).wf(),
            final(self)@ == old(self)@.insert(
                signum,
                SlotView { stack: old(self)@[signum].stack, prev },
            ),
            final(self).next_token_spec() == old(self).next_token_spec(),
    {
        let ghost ev0 = self.entries_view();
        match self.find_index(signum) {
            Some(i) => {
                let (signum_e, slot) = self.entries.remove(i);
                let SignalSlot { stack, .. } = slot;
                self.entries.insert(i, (signum_e, SignalSlot { stack, prev }));
                proof {
                    let new_slot = SlotView { stack: ev0[i as int].1.stack, prev };
                    assert(self.entries_view() =~= ev0.update(i as int, (signum, new_slot)));
                    lemma_keys_unique_update(ev0, i as int, new_slot);
                    lemma_assoc_map_update(ev0, i as int, new_slot);
                    assert forall|a: int| 0 <= a < self.entries_view().len()
                        implies slot_ok(
                            (#[trigger] self.entries_view()[a]).1,
                            self.next_token,
                        ) by {
                        if a != i {
                            assert(self.entries_view()[a] == ev0[a]);
                        }
                    }
                }
            },
            None => {},
        }
    }

    /// Pop the newest occurrence of `id` from the stack of every listed
    /// signal number, silently skipping numbers where it is absent, and
    /// drop every slot whose stack empties. The captured previous handler
    /// of a dropped slot is not reinstalled here: restoring it is the
    /// platform collaborator's responsibility.
    pub fn remove_handler(&mut self, signums: &Vec<i32>, id: HandlerId)
        requires
            old(self).wf(),
        ensures
            final(self).wf(),
            final(self)@ == spec_remove_all(old(self)@, signums@, id),
            final(self).next_token_spec() == old(self).next_token_spec(),
    {
        let mut k: usize = 0;
        while k < signums.len()
            invariant
                self.wf(),
                k <= signums@.len(),
                self.next_token_spec() == old(self).next_token_spec(),
                self@ =~= spec_remove_all(old(self)@, signums@.take(k as int), id),
            decreases signums@.len() - k,
        {
            let s = signums[k];
            let ghost m_before = self@;
            proof {
                assert(signums@.take(k as int + 1).drop_last() =~= signums@.take(k as int));
                assert(signums@.take(k as int + 1).last() == signums@[k as int]);
            }
            match self.find_index(s) {
                Some(i) => {
                    let ghost ev0 = self.entries_view();
                    let (signum_e, slot) = self.entries.remove(i);
                    let SignalSlot { mut stack, prev } = slot;
                    let ghost st0 = stack@;
                    match last_index_of_id(&stack, id) {
                        Some(j) => {
                            proof {
                                st0.index_of_last_ensures(id);
                            }
                            stack.remove(j);
                            proof {
                                assert(spec_remove_newest(st0, id) == st0.remove(j as int));
                            }
                            if stack.len() == 0 {
                                proof {
                                    lemma_keys_unique_remove(ev0, i as int);
                                    lemma_assoc_map_remove(ev0, i as int);
                                    assert(self.entries_view() =~= ev0.remove(i as int));
                                    assert(self@ =~= m_before.remove(s));
                                    assert(self@ =~= spec_remove_one(m_before, s, id));
                                    assert forall|a: int| 0 <= a < self.entries_view().len()
                                        implies slot_ok(
                                            (#[trigger] self.entries_view()[a]).1,
                                            self.next_token,
                                        ) by {
                                        let a0: int = if a < i { a } else { a + 1 };
                                        assert(self.entries_view()[a] == ev0[a0]);
                                    }
                                }
                            } else {
                                self.entries.insert(i, (signum_e, SignalSlot { stack, prev }));
                                proof {
                                    let new_slot = SlotView {
                                        stack: st0.remove(j as int),
                                        prev: ev0[i as int].1.prev,
                                    };
                                    assert(self.entries_view()
                                        =~= ev0.update(i as int, (s, new_slot)));
                                    lemma_keys_unique_update(ev0, i as int, new_slot);
                                    lemma_assoc_map_update(ev0, i as int, new_slot);
                                    assert(self@ =~= spec_remove_one(m_before, s, id));
                                    assert forall|a: int| 0 <= a < self.entries_view().len()
                                        implies slot_ok(
                                            (#[trigger] self.entries_view()[a]).1,
                                            self.next_token,
                                        ) by {
                                        if a != i {
                                            assert(self.entries_view()[a] == ev0[a]);
                                        } else {
                                            st0.remove_ensures(j as int);
                                            assert(forall|b: int|
                                                0 <= b < st0.len()
                                                    ==> (#[trigger] st0[b])@ < self.next_token);
                                        }
                                    }
                                }
                            }
                        },
                        None => {
                            self.entries.insert(i, (signum_e, SignalSlot { stack, prev }));
                            proof {
                                assert(self.entries_view() =~= ev0);
                                st0.index_of_last_ensures(id);
                                assert(spec_remove_newest(st0, id) == st0);
                                assert(m_before[s] =~= SlotView {
                                    stack: st0,
                                    prev: ev0[i as int].1.prev,
                                });
                                assert(m_before.insert(s, m_before[s]) =~= m_before);
                                assert(self@ =~= spec_remove_one(m_before, s, id));
                            }
                        },
                    }
                },
                None => {},
            }
            k += 1;
        }
        proof {
            assert(signums@.take(signums@.len() as int) =~= signums@);
        }
    }

    /// Resolve one notification for `signum` against the handlers' answers:
    /// `reports[i]` is what the handler at stack position `i` reports when
    /// invoked. The glue walks [`HandlerTable::dispatch_order`] and stops at
    /// the first consumer; this resolution pins the outcome of that walk.
    pub fn resolve_dispatch(&self, signum: i32, reports: &Vec<bool>) -> (outcome:
        DispatchOutcome)
        requires
            self.wf(),
            self@.dom().contains(signum) ==> reports@.len() == self@[signum].stack.len(),
        ensures
            outcome == spec_table_resolve(self@, signum, reports@),
    {
        match self.find_index(signum) {
            Some(i) => {
                let stack = &self.entries[i].1.stack;
                proof {
                    assert(stack@.take(stack@.len() as int) =~= stack@);
                    assert(reports@.take(reports@.len() as int) =~= reports@);
                }
                let mut j: usize = stack.len();
                while j > 0
                    invariant
                        j <= stack@.len(),
                        stack@.len() == reports@.len(),
                        self@.dom().contains(signum),
                        stack@ == self@[signum].stack,
                        spec_resolve(stack@.take(j as int), reports@.take(j as int))
                            == spec_resolve(stack@, reports@),
                    decreases j,
                {
                    proof {
                        assert(stack@.take(j as int).last() == stack@[j as int - 1]);
                        assert(reports@.take(j as int).last() == reports@[j as int - 1]);
                    }
                    if reports[j - 1] {
                        return DispatchOutcome::Consumed { id: stack[j - 1] };
                    }
                    proof {
                        assert(stack@.take(j as int).drop_last() =~= stack@.take(j as int - 1));
                        assert(reports@.take(j as int).drop_last()
                            =~= reports@.take(j as int - 1));
                    }
                    j -= 1;
                }
                proof {
                    assert(stack@.take(0) =~= Seq::<HandlerId>::empty());
                    assert(reports@.take(0) =~= Seq::<bool>::empty());
                }
                DispatchOutcome::Delegate
            },
            None => DispatchOutcome::NotOurs,
        }
    }
}

/// A registration guard at the signal-stack level: constructing one pushes
/// a handler for one or more signal numbers; handing it back removes that
/// registration. Registrations may be removed in any order, not only in
/// reverse order of creation.
pub struct SignalHandlerGuard {
    signums: Vec<i32>,
    handler_id: HandlerId,
}

impl SignalHandlerGuard {
    /// The signal numbers this guard registered for.
    pub closed spec fn signums_spec(self) -> Seq<i32> {
        self.signums@
    }

    /// The identity of the registered handler.
    pub closed spec fn id_spec(self) -> HandlerId {
        self.handler_id
    }

    /// Push a new handler registration for the given signal numbers. The
    /// handler itself must be safe for the restricted context, which the
    /// surrounding glue vouches for; here it is represented by the minted
    /// identity. Also returns the numbers needing the trampoline installed,
    /// as [`HandlerTable::add_handler`] does.
    pub fn new(table: &mut HandlerTable, signums: Vec<i32>) -> (out: (
        SignalHandlerGuard,
        Vec<i32>,
    ))
        requires
            old(table).wf(),
            old(table).next_token_spec() < u64::MAX,
        ensures
            final(table).wf(),
            final(table)@ == spec_add_all(old(table)@, signums@, out.0.id_spec()),
            out.0.signums_spec() == signums@,
            out.0.id_spec()@ == old(table).next_token_spec(),
            out.1@ == spec_fresh_signums(signums@, old(table)@.dom()),
    {
        let added = table.add_handler(&signums);
        (SignalHandlerGuard { signums, handler_id: added.id }, added.needs_install)
    }

    /// Keep the handler attached for the remainder of the process lifetime:
    /// the guard is consumed without removing anything.
    pub fn forget(self) {
    }

    /// Remove this guard's registration from every signal number it named.
    pub fn release(self, table: &mut HandlerTable)
        requires
            old(table).wf(),
        ensures
            final(table).wf(),
            final(table)@ == spec_remove_all(old(table)@, self.signums_spec(), self.id_spec()),
    {
        table.remove_handler(&self.signums, self.handler_id);
    }
}

/// Index of the newest occurrence of `id` in a registration sequence, tied
/// to the spec-level search.
fn last_index_of_id(stack: &Vec<HandlerId>, id: HandlerId) -> (found: Option<usize>)
    ensures
        match found {
            Some(j) => stack@.index_of_last(id) == Some(j as int),
            None => stack@.index_of_last(id) is None,
        },
{
    let mut j: usize = stack.len();
    while j > 0
        invariant
            j <= stack@.len(),
            forall|t: int| j <= t < stack@.len() ==> (#[trigger] stack@[t]) != id,
        decreases j,
    {
        if stack[j - 1] == id {
            proof {
                stack@.index_of_last_ensures(id);
                assert(stack@.contains(id)) by {
                    assert(stack@[j as int - 1] == id);
                }
                let idx = choose|idx: int| stack@.index_of_last(id) == Some(idx);
                assert(stack@[idx] == id);
                if idx < j as int - 1 {
                    assert(stack@[j as int - 1] != id);
                }
            }
            return Some(j - 1);
        }
        j -= 1;
    }
    proof {
        stack@.index_of_last_ensures(id);
        if stack@.contains(id) {
            let t = choose|t: int| 0 <= t < stack@.len() && stack@[t] == id;
            assert(false);
        }
    }
    None
}

/// A slot is well formed for mint counter `next` when its stack is non-empty
/// and every token in it was minted earlier.
pub open spec fn slot_ok(slot: SlotView, next: u64) -> bool {
    &&& slot.stack.len() > 0
    &&& forall|j: int| 0 <= j < slot.stack.len() ==> (#[trigger] slot.stack[j])@ < next
}

impl View for HandlerTable {
    type V = Map<i32, SlotView>;

    closed spec fn view(&self) -> Map<i32, SlotView> {
        assoc_map(self.entries_view())
    }
}

/// Registration of one identity for one signal number: push onto the
/// existing slot, or create the slot (with no captured handler yet) when the
/// number was not ours.
pub open spec fn spec_add_one(m: Map<i32, SlotView>, signum: i32, id: HandlerId) -> Map<
    i32,
    SlotView,
> {
    if m.dom().contains(signum) {
        m.insert(signum, SlotView { stack: m[signum].stack.push(id), prev: m[signum].prev })
    } else {
        m.insert(signum, SlotView { stack: seq![id], prev: PrevHandler::Default })
    }
}

/// Registration of one identity for a list of signal numbers, left to
/// right. A number listed twice is pushed twice.
pub open spec fn spec_add_all(m: Map<i32, SlotView>, signums: Seq<i32>, id: HandlerId) -> Map<
    i32,
    SlotView,
>
    decreases signums.len(),
{
    if signums.len() == 0 {
        m
    } else {
        spec_add_one(spec_add_all(m, signums.drop_last(), id), signums.last(), id)
    }
}

/// The signal numbers of `signums` that are not in `dom0`, in first-seen
/// order and without repetition: exactly the numbers whose slot a
/// registration call creates.
pub open spec fn spec_fresh_signums(signums: Seq<i32>, dom0: Set<i32>) -> Seq<i32>
    decreases signums.len(),
{
    if signums.len() == 0 {
        Seq::empty()
    } else {
        let rest = spec_fresh_signums(signums.drop_last(), dom0);
        if dom0.contains(signums.last()) || signums.drop_last().contains(signums.last()) {
            rest
        } else {
            rest.push(signums.last())
        }
    }
}

/// Removal of the newest matching occurrence of `id` from a registration
/// sequence: the occurrence with the highest index goes; an absent identity
/// leaves the sequence unchanged.
pub open spec fn spec_remove_newest(stack: Seq<HandlerId>, id: HandlerId) -> Seq<HandlerId> {
    match stack.index_of_last(id) {
        Some(i) => stack.remove(i),
        None => stack,
    }
}

/// Removal of one identity for one signal number: silently nothing when the
/// number is not ours or the identity is absent from its stack; otherwise
/// the newest matching occurrence is popped, and the slot is removed
/// entirely once its stack empties.
pub open spec fn spec_remove_one(m: Map<i32, SlotView>, signum: i32, id: HandlerId) -> Map<
    i32,
    SlotView,
> {
    if !m.dom().contains(signum) {
        m
    } else {
        let st2 = spec_remove_newest(m[signum].stack, id);
        if st2.len() == 0 {
            m.remove(signum)
        } else {
            m.insert(signum, SlotView { stack: st2, prev: m[signum].prev })
        }
    }
}

/// Removal of one identity for a list of signal numbers, left to right.
pub open spec fn spec_remove_all(m: Map<i32, SlotView>, signums: Seq<i32>, id: HandlerId) -> Map<
    i32,
    SlotView,
>
    decreases signums.len(),
{
    if signums.len() == 0 {
        m
    } else {
        spec_remove_one(spec_remove_all(m, signums.drop_last(), id), signums.last(), id)
    }
}

/// Resolution of one notification against the answers of the handlers on a
/// stack: `reports[i]` is what the handler at stack position `i` reports
/// when invoked. Handlers are asked newest first; the first to report
/// "consumed" wins, and delegation is the outcome exactly when none does.
pub open spec fn spec_resolve(stack: Seq<HandlerId>, reports: Seq<bool>) -> DispatchOutcome
    recommends
        stack.len() == reports.len(),
    decreases stack.len(),
{
    if stack.len() == 0 {
        DispatchOutcome::Delegate
    } else if reports.last() {
        DispatchOutcome::Consumed { id: stack.last() }
    } else {
        spec_resolve(stack.drop_last(), reports.drop_last())
    }
}

/// Table-level resolution of one notification: nothing when the number has
/// no slot, otherwise [`spec_resolve`] over its stack.
pub open spec fn spec_table_resolve(
    m: Map<i32, SlotView>,
    signum: i32,
    reports: Seq<bool>,
) -> DispatchOutcome {
    if m.dom().contains(signum) {
        spec_resolve(m[signum].stack, reports)
    } else {
        DispatchOutcome::NotOurs
    }
}

/// The dispatch order for `signum` under table `m`: the registration
/// sequence reversed (LIFO), empty when the number is not ours.
pub open spec fn spec_dispatch_order(m: Map<i32, SlotView>, signum: i32) -> Seq<HandlerId> {
    if m.dom().contains(signum) {
        m[signum].stack.reverse()
    } else {
        Seq::empty()
    }
}

/// Dispatch order is last-in-first-out at every intermediate state:
/// registering an identity for a number puts it in front of the previous
/// dispatch order, whatever sequence of operations produced the table.
pub proof fn lemma_dispatch_order_lifo(m: Map<i32, SlotView>, signum: i32, id: HandlerId)
    ensures
        spec_dispatch_order(spec_add_one(m, signum, id), signum)
            =~= seq![id] + spec_dispatch_order(m, signum),
{
    if m.dom().contains(signum) {
        let st = m[signum].stack;
        assert(st.push(id).reverse() =~= seq![id] + st.reverse());
    } else {
        assert(seq![id].reverse() =~= seq![id] + Seq::<HandlerId>::empty());
    }
}

/// Registering for one number leaves every other number's dispatch order
/// untouched.
pub proof fn lemma_add_other_numbers_unchanged(
    m: Map<i32, SlotView>,
    signum: i32,
    other: i32,
    id: HandlerId,
)
    requires
        other != signum,
    ensures
        spec_dispatch_order(spec_add_one(m, signum, id), other)
            == spec_dispatch_order(m, other),
{
}

/// Removing an identity pops exactly the newest matching registration: in
/// dispatch order (newest first) the first occurrence of `id` disappears
/// and the remaining handlers keep their relative order.
pub proof fn lemma_remove_pops_newest(st: Seq<HandlerId>, id: HandlerId)
    requires
        st.contains(id),
    ensures
        spec_remove_newest(st, id).reverse() =~= st.reverse().remove_value(id),
{
    st.index_of_last_ensures(id);
    let i = choose|i: int| st.index_of_last(id) == Some(i);
    let n = st.len() as int;
    let rev = st.reverse();
    let ri = n - 1 - i;
    assert(rev[ri] == st[i]);
    assert forall|j: int| 0 <= j < ri implies rev[j] != id by {
        assert(rev[j] == st[n - 1 - j]);
    }
    rev.index_of_first_ensures(id);
    assert(rev.contains(id)) by {
        assert(rev[ri] == id);
    }
    let fi = choose|fi: int| rev.index_of_first(id) == Some(fi);
    assert(fi == ri) by {
        if fi < ri {
            assert(rev[fi] != id);
        }
        if fi > ri {
            assert(rev[ri] != id);
        }
    }
    st.remove_ensures(i);
    rev.remove_ensures(ri);
    assert forall|a: int| 0 <= a < n - 1
        implies st.remove(i).reverse()[a] == rev.remove(ri)[a] by {
        assert(st.remove(i).reverse()[a] == st.remove(i)[n - 2 - a]);
        if a < ri {
            assert(rev.remove(ri)[a] == rev[a]);
            assert(rev[a] == st[n - 1 - a]);
            assert(n - 2 - a >= i);
            assert(st.remove(i)[n - 2 - a] == st[n - 1 - a]);
        } else {
            assert(rev.remove(ri)[a] == rev[a + 1]);
            assert(rev[a + 1] == st[n - 2 - a]);
            assert(n - 2 - a < i);
            assert(st.remove(i)[n - 2 - a] == st[n - 2 - a]);
        }
    }
}

/// A signal number's slot lifecycle closes cleanly: pushing a fresh
/// identity and popping it right away leaves the table exactly as it was —
/// in particular, a slot created by the registration is destroyed again,
/// with its captured previous handler discarded rather than kept.
pub proof fn lemma_add_remove_round_trip(m: Map<i32, SlotView>, signum: i32, id: HandlerId)
    requires
        m.dom().contains(signum) ==> !m[signum].stack.contains(id) && m[signum].stack.len() > 0,
    ensures
        spec_remove_one(spec_add_one(m, signum, id), signum, id) =~= m,
{
    let m1 = spec_add_one(m, signum, id);
    assert(m1[signum].stack.last() == id);
    assert(m1[signum].stack.contains(id)) by {
        assert(m1[signum].stack[m1[signum].stack.len() - 1] == id);
    }
    m1[signum].stack.index_of_last_ensures(id);
    let i = choose|i: int| m1[signum].stack.index_of_last(id) == Some(i);
    assert(i == m1[signum].stack.len() - 1) by {
        if i < m1[signum].stack.len() - 1 {
            assert(m1[signum].stack[m1[signum].stack.len() - 1] != id);
        }
    }
    if m.dom().contains(signum) {
        let s = m[signum].stack;
        assert(m1[signum].stack == s.push(id));
        assert(s.push(id).remove(s.len() as int) =~= s);
        assert(spec_remove_newest(m1[signum].stack, id) =~= s);
        assert(spec_remove_one(m1, signum, id)
            =~= m.insert(signum, SlotView { stack: s, prev: m[signum].prev }));
        assert(m[signum] =~= (SlotView { stack: s, prev: m[signum].prev }));
        assert(m.insert(signum, m[signum]) =~= m);
    } else {
        assert(m1[signum].stack == seq![id]);
        assert(seq![id].remove(0) =~= Seq::<HandlerId>::empty());
        assert(spec_remove_one(m1, signum, id) =~= m1.remove(signum));
        assert(m1.remove(signum) =~= m);
    }
}

/// Delegation happens exactly once per notification, and exactly when no
/// handler reports it consumed: resolution yields the single outcome
/// `Delegate` precisely on an all-false report sequence, and a consuming
/// outcome otherwise.
pub proof fn lemma_delegate_iff_unconsumed(stack: Seq<HandlerId>, reports: Seq<bool>)
    requires
        stack.len() == reports.len(),
    ensures
        (spec_resolve(stack, reports) is Delegate)
            <==> (forall|i: int| 0 <= i < reports.len() ==> !reports[i]),
    decreases stack.len(),
{
    if stack.len() == 0 {
    } else if reports.last() {
        assert(reports[reports.len() - 1]);
    } else {
        lemma_delegate_iff_unconsumed(stack.drop_last(), reports.drop_last());
        if forall|i: int| 0 <= i < reports.drop_last().len()
            ==> !(#[trigger] reports.drop_last()[i]) {
            assert forall|i: int| 0 <= i < reports.len() implies !reports[i] by {
                if i < reports.len() - 1 {
                    assert(!reports.drop_last()[i]);
                }
            }
        } else {
            let i = choose|i: int| 0 <= i < reports.drop_last().len()
                && (#[trigger] reports.drop_last()[i]);
            assert(reports[i]);
        }
    }
}

/// A consuming resolution names the newest handler that reported the
/// notification consumed, and every handler above it on the stack declined.
pub proof fn lemma_consumed_is_newest_reporter(
    stack: Seq<HandlerId>,
    reports: Seq<bool>,
    id: HandlerId,
)
    requires
        stack.len() == reports.len(),
        spec_resolve(stack, reports) == (DispatchOutcome::Consumed { id }),
    ensures
        exists|i: int|
            {
                &&& 0 <= i < stack.len()
                &&& #[trigger] stack[i] == id
                &&& reports[i]
                &&& forall|j: int| i < j < reports.len() ==> !reports[j]
            },
    decreases stack.len(),
{
    if stack.len() == 0 {
    } else if reports.last() {
        let w = stack.len() - 1;
        assert(stack[w] == id && reports[w]);
    } else {
        lemma_consumed_is_newest_reporter(stack.drop_last(), reports.drop_last(), id);
        let i = choose|i: int|
            {
                &&& 0 <= i < stack.drop_last().len()
                &&& #[trigger] stack.drop_last()[i] == id
                &&& reports.drop_last()[i]
                &&& forall|j: int| i < j < reports.drop_last().len()
                    ==> !reports.drop_last()[j]
            };
        assert(stack[i] == id && reports[i]);
        assert forall|j: int| i < j < reports.len() implies !reports[j] by {
            if j < reports.len() - 1 {
                assert(!reports.drop_last()[j]);
            }
        }
    }
}

} // verus!
