//! The signal-safe concurrent cell, as a verified protocol model.
//!
//! The global handler table must be readable from the restricted
//! signal-delivery context, where blocking on a lock is forbidden, while
//! ordinary threads replace its contents. The design holds the value in two
//! slots, each independently lockable without allocation: a writer
//! serializes on a mutex, exclusively locks the back slot, mutates it,
//! releases it, and only then commits by copying the new value into the
//! front slot; a reader probes the front slot and falls over to the back
//! slot when the front is under commit. Since the writer never holds both
//! slots at once, a reader always finds an unlocked slot on the first
//! cycle, and since a slot is only handed out whole, a read sees either the
//! last committed value or the newly committed one — never a torn mix.
//!
//! This module models that protocol: the phase the single writer is in
//! stands for which slot is exclusively locked, and the stored value is
//! represented by an integer key, since only whole-value hand-over matters
//! to the protocol. The glue that wraps the real lock primitives mirrors
//! these transitions one for one.

use vstd::prelude::*;

verus! {

/// Where the single writer stands in the commit protocol. At most one slot
/// is ever exclusively locked, which is what keeps readers lock-free.
#[derive(Clone, Copy, Debug, PartialEq, Eq, Structural)]
pub enum WritePhase {
    /// No write in progress; both slots hold the committed value.
    Idle,
    /// The writer holds the back slot exclusively and is mutating it.
    MutatingBack,
    /// The writer has released the back slot and is committing its value
    /// into the front slot.
    CommittingFront,
}

/// Spec-level state of the cell.
pub struct CellView {
    /// The slot a reader probes first; holds the last committed value.
    pub front: u64,
    /// The slot the writer mutates exclusively.
    pub back: u64,
    /// The writer's position in the commit protocol.
    pub phase: WritePhase,
}

/// The two-slot cell: both value slots and the writer phase.
pub struct SignalSafeCell {
    front: u64,
    back: u64,
    phase: WritePhase,
}

impl View for SignalSafeCell {
    type V = CellView;

    closed spec fn view(&self) -> CellView {
        CellView { front: self.front, back: self.back, phase: self.phase }
    }
}

/// Whether the front slot is exclusively locked.
pub open spec fn spec_front_locked(v: CellView) -> bool {
    v.phase is CommittingFront
}

/// Whether the back slot is exclusively locked.
pub open spec fn spec_back_locked(v: CellView) -> bool {
    v.phase is MutatingBack
}

/// The value a non-blocking read returns: the front slot, or the back slot
/// while the front is under commit.
pub open spec fn spec_read(v: CellView) -> u64 {
    if spec_front_locked(v) {
        v.back
    } else {
        v.front
    }
}

impl SignalSafeCell {
    /// Outside a commit, the two slots agree: a write is observable as
    /// complete only once both hold the new value.
    pub open spec fn wf(self) -> bool {
        self@.phase is Idle ==> self@.front == self@.back
    }

    /// A fresh cell holding `value` in both slots.
    pub fn new(value: u64) -> (cell: SignalSafeCell)
        ensures
            cell.wf(),
            cell@ == (CellView { front: value, back: value, phase: WritePhase::Idle }),
    {
        SignalSafeCell { front: value, back: value, phase: WritePhase::Idle }
    }

    /// A read view of the current value. It never blocks, whatever phase a
    /// concurrent writer is in: the probed slot is never the locked one.
    /// The result is always a whole committed value — the last one, or the
    /// one the writer has already released the back slot for.
    pub fn read(&self) -> (value: u64)
        requires
            self.wf(),
        ensures
            value == spec_read(self@),
            value == self@.front || value == self@.back,
            self@.phase is Idle ==> value == self@.front && value == self@.back,
    {
        match self.phase {
            WritePhase::CommittingFront => self.back,
            _ => self.front,
        }
    }

    /// Take the writer role: the writer mutex is held and the back slot is
    /// exclusively locked. Values are untouched.
    pub fn begin_write(&mut self)
        requires
            old(self).wf(),
            old(self)@.phase is Idle,
        ensures
            final(self).wf(),
            final(self)@ == (CellView { phase: WritePhase::MutatingBack, ..old(self)@ }),
    {
        self.phase = WritePhase::MutatingBack;
    }

    /// Mutate the value through the exclusive back slot. Readers keep
    /// seeing the front slot's committed value.
    pub fn store(&mut self, value: u64)
        requires
            old(self).wf(),
            old(self)@.phase is MutatingBack,
        ensures
            final(self).wf(),
            final(self)@ == (CellView { back: value, ..old(self)@ }),
            spec_read(final(self)@) == spec_read(old(self)@),
    {
        self.back = value;
    }

    /// Release the back slot after taking a copy of the new value: from
    /// here on a reader that finds the front slot locked reads the new
    /// value from the back slot.
    pub fn release_back(&mut self)
        requires
            old(self).wf(),
            old(self)@.phase is MutatingBack,
        ensures
            final(self).wf(),
            final(self)@ == (CellView { phase: WritePhase::CommittingFront, ..old(self)@ }),
    {
        self.phase = WritePhase::CommittingFront;
    }

    /// Commit: copy the new value into the front slot (acquired through an
    /// upgradable read so waiting readers are not starved) and release
    /// everything. Both slots agree again.
    pub fn commit_front(&mut self)
        requires
            old(self).wf(),
            old(self)@.phase is CommittingFront,
        ensures
            final(self).wf(),
            final(self)@ == (CellView {
                front: old(self)@.back,
                back: old(self)@.back,
                phase: WritePhase::Idle,
            }),
            spec_read(final(self)@) == old(self)@.back,
    {
        self.front = self.back;
        self.phase = WritePhase::Idle;
    }

    /// A whole write, serialized behind the writer mutex: run the full
    /// protocol and leave both slots holding `value`.
    pub fn write(&mut self, value: u64)
        requires
            old(self).wf(),
            old(self)@.phase is Idle,
        ensures
            final(self).wf(),
            final(self)@ == (CellView { front: value, back: value, phase: WritePhase::Idle }),
            spec_read(final(self)@) == value,
    {
        self.begin_write();
        self.store(value);
        self.release_back();
        self.commit_front();
    }
}

/// A reader never blocks: in every state of the protocol at most one slot
/// is exclusively locked, so probing front then back always finds a free
/// slot on the first cycle.
pub proof fn lemma_reader_never_blocks(v: CellView)
    ensures
        !(spec_front_locked(v) && spec_back_locked(v)),
        spec_front_locked(v) ==> spec_read(v) == v.back,
        !spec_front_locked(v) ==> spec_read(v) == v.front,
{
}

/// A read interleaved anywhere into a single write of `value` over
/// committed value `before` observes either the old or the new value,
/// whole — never a torn mix of the two.
pub proof fn lemma_read_not_torn(v: CellView, before: u64, value: u64)
    requires
        v.phase is Idle ==> v.front == v.back,
        v.front == before || v.front == value,
        v.back == before || v.back == value,
    ensures
        spec_read(v) == before || spec_read(v) == value,
{
}

} // verus!
