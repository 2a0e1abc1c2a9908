//! The bookkeeping of one key: a capacity, the instances made so far, and
//! which of them are idle.
//!
//! A slot never blocks and never runs a factory. It answers one question,
//! "what should the caller asking for an instance do next?", and records what
//! the caller reports back. Whoever drives it does the waiting and the
//! creating.

use vstd::prelude::*;

verus! {

/// A recipe that makes one new instance on demand, or fails.
pub trait Factory {
    /// What the recipe makes.
    type Instance;

    /// Why the recipe may fail.
    type Error;

    /// Makes one new instance.
    fn create(&self) -> Result<Self::Instance, Self::Error>;
}

/// What a caller who asked a slot for an instance has to do next.
#[derive(Debug, PartialEq, Eq)]
pub enum Decision<T> {
    /// Use this instance: it was idle and is now checked out.
    Take(T),
    /// Run the factory: room for one more instance has been set aside.
    Create,
    /// Block until woken or until this much time has passed, then ask again.
    Wait(u64),
    /// Stop: the time allowed has passed and no instance came free.
    GiveUp,
}

/// One thing that happens to a slot.
pub enum SlotEvent<T> {
    /// A caller who has waited `waited` out of `timeout` asks for an instance.
    Ask { waited: u64, timeout: u64 },
    /// The end of a creation is reported: an instance was made, or none.
    Settle { created: bool },
    /// A caller hands an instance back.
    Return(T),
    /// The slot is taken out of service.
    Retire,
}

/// The state of a slot.
///
/// `live` counts every instance that the capacity has to account for: the
/// idle ones, the ones checked out, and the `pending` ones whose creation has
/// been allowed and not yet reported.
pub struct SlotView<F: Factory> {
    pub factory: F,
    pub capacity: nat,
    pub live: nat,
    pub pending: nat,
    pub idle: Seq<F::Instance>,
    pub retired: bool,
}

impl<F: Factory> SlotView<F> {
    /// The invariant of a slot: the capacity bounds the live count, which
    /// covers the idle and the pending instances, and a retired slot keeps
    /// nothing idle.
    pub open spec fn wf(self) -> bool {
        &&& 1 <= self.capacity
        &&& self.idle.len() + self.pending <= self.live <= self.capacity
        &&& self.retired ==> self.idle.len() == 0
    }

    /// How many instances are in the hands of callers.
    pub open spec fn checked_out(self) -> int {
        self.live - self.pending - self.idle.len()
    }

    /// A slot that has made nothing yet.
    pub open spec fn fresh(factory: F, capacity: nat) -> Self {
        SlotView { factory, capacity, live: 0, pending: 0, idle: Seq::empty(), retired: false }
    }

    /// What a caller who has waited `waited` out of `timeout` is told.
    ///
    /// An idle instance goes first, the one returned last. Without one, a new
    /// instance is allowed while the live count is under the capacity. At
    /// capacity the caller waits for what is left of its time, and gives up
    /// once nothing is left. A retired slot hands nothing out.
    pub open spec fn decision(self, waited: u64, timeout: u64) -> Decision<F::Instance> {
        if self.retired {
            Decision::GiveUp
        } else if self.idle.len() > 0 {
            Decision::Take(self.idle.last())
        } else if self.live < self.capacity {
            Decision::Create
        } else if waited < timeout {
            Decision::Wait((timeout - waited) as u64)
        } else {
            Decision::GiveUp
        }
    }

    /// The state once the caller has been told `decision`.
    pub open spec fn after(self, decision: Decision<F::Instance>) -> Self {
        match decision {
            Decision::Take(_) => SlotView { idle: self.idle.drop_last(), ..self },
            Decision::Create => SlotView {
                live: self.live + 1,
                pending: self.pending + 1,
                ..self
            },
            Decision::Wait(_) => self,
            Decision::GiveUp => self,
        }
    }

    /// The state once a pending creation has been reported: the new instance
    /// is checked out if there is one, and its room is given up if there is
    /// none. Without a pending creation nothing changes.
    pub open spec fn settled(self, created: bool) -> Self {
        if self.pending == 0 {
            self
        } else if created {
            SlotView { pending: (self.pending - 1) as nat, ..self }
        } else {
            SlotView {
                pending: (self.pending - 1) as nat,
                live: (self.live - 1) as nat,
                ..self
            }
        }
    }

    /// The state once a checked-out instance has come back: it is idle again,
    /// or gone for good if the slot is retired. With nothing checked out
    /// nothing changes.
    pub open spec fn returned(self, instance: F::Instance) -> Self {
        if self.checked_out() <= 0 {
            self
        } else if self.retired {
            SlotView { live: (self.live - 1) as nat, ..self }
        } else {
            SlotView { idle: self.idle.push(instance), ..self }
        }
    }

    /// The state once the slot has been taken out of service: its idle
    /// instances are gone, and what is checked out or pending stays counted
    /// until it is reported.
    pub open spec fn retired_now(self) -> Self {
        SlotView {
            live: (self.live - self.idle.len()) as nat,
            idle: Seq::empty(),
            retired: true,
            ..self
        }
    }

    /// The state once `event` has happened.
    pub open spec fn on(self, event: SlotEvent<F::Instance>) -> Self {
        match event {
            SlotEvent::Ask { waited, timeout } => self.after(self.decision(waited, timeout)),
            SlotEvent::Settle { created } => self.settled(created),
            SlotEvent::Return(instance) => self.returned(instance),
            SlotEvent::Retire => self.retired_now(),
        }
    }

    /// The state once `events` have happened, one after the other.
    pub open spec fn run(self, events: Seq<SlotEvent<F::Instance>>) -> Self
        decreases events.len(),
    {
        if events.len() == 0 {
            self
        } else {
            self.run(events.drop_last()).on(events.last())
        }
    }
}

/// One key's slot: its factory, its capacity and its instances.
pub struct KeySlot<F: Factory> {
    factory: F,
    max_instances: u64,
    live_count: u64,
    pending: u64,
    available: Vec<F::Instance>,
    retired: bool,
}

impl<F: Factory> View for KeySlot<F> {
    type V = SlotView<F>;

    closed spec fn view(&self) -> SlotView<F> {
        SlotView {
            factory: self.factory,
            capacity: self.max_instances as nat,
            live: self.live_count as nat,
            pending: self.pending as nat,
            idle: self.available@,
            retired: self.retired,
        }
    }
}

impl<F: Factory> KeySlot<F> {
    /// Whether the slot's counts are consistent: see [`SlotView::wf`].
    pub open spec fn wf(&self) -> bool {
        self@.wf()
    }

    /// A slot with room for `max_instances` instances and none made yet.
    pub fn new(factory: F, max_instances: u64) -> (slot: Self)
        requires
            max_instances >= 1,
        ensures
            slot.wf(),
            slot@ == SlotView::fresh(factory, max_instances as nat),
    {
        KeySlot {
            factory,
            max_instances,
            live_count: 0,
            pending: 0,
            available: Vec::new(),
            retired: false,
        }
    }

    /// The recipe that makes this slot's instances.
    pub fn factory(&self) -> (f: &F)
        ensures
            *f == self@.factory,
    {
        &self.factory
    }

    /// The most instances that may be alive at once.
    pub fn max_instances(&self) -> (n: u64)
        ensures
            n == self@.capacity,
    {
        self.max_instances
    }

    /// How many instances the capacity accounts for now: idle, checked out and pending.
    pub fn count(&self) -> (n: u64)
        requires
            self.wf(),
        ensures
            n == self@.live,
            n <= self@.capacity,
    {
        self.live_count
    }

    /// How many instances are idle.
    pub fn idle(&self) -> (n: usize)
        ensures
            n == self@.idle.len(),
    {
        self.available.len()
    }

    /// How many creations have been allowed and not yet reported.
    pub fn pending(&self) -> (n: u64)
        ensures
            n == self@.pending,
    {
        self.pending
    }

    /// How many instances are in the hands of callers.
    pub fn checked_out(&self) -> (n: u64)
        requires
            self.wf(),
        ensures
            n == self@.checked_out(),
            n <= self@.capacity,
    {
        self.live_count - self.pending - self.available.len() as u64
    }

    /// Whether the slot has been taken out of service.
    pub fn is_retired(&self) -> (b: bool)
        ensures
            b == self@.retired,
    {
        self.retired
    }

    /// Tells a caller who has waited `waited` out of `timeout` what to do
    /// next, and accounts for it.
    pub fn step(&mut self, waited: u64, timeout: u64) -> (d: Decision<F::Instance>)
        requires
            old(self).wf(),
        ensures
            final(self).wf(),
            d == old(self)@.decision(waited, timeout),
            final(self)@ == old(self)@.after(d),
    {
        if self.retired {
            return Decision::GiveUp;
        }
        match self.available.pop() {
            Some(instance) => Decision::Take(instance),
            None => {
                if self.live_count < self.max_instances {
                    self.live_count = self.live_count + 1;
                    self.pending = self.pending + 1;
                    Decision::Create
                } else if waited < timeout {
                    Decision::Wait(timeout - waited)
                } else {
                    Decision::GiveUp
                }
            },
        }
    }

    /// Records the end of a creation that `step` allowed: `created` says
    /// whether the factory made an instance. Answers whether a creation was
    /// pending at all; if none was, nothing changes.
    pub fn settle(&mut self, created: bool) -> (was_pending: bool)
        requires
            old(self).wf(),
        ensures
            final(self).wf(),
            was_pending == (old(self)@.pending > 0),
            final(self)@ == old(self)@.settled(created),
    {
        if self.pending == 0 {
            return false;
        }
        self.pending = self.pending - 1;
        if !created {
            self.live_count = self.live_count - 1;
        }
        true
    }

    /// Takes back an instance that was checked out. A retired slot lets it
    /// go; any other keeps it idle for the next caller. With nothing checked
    /// out the instance cannot be this slot's: it is handed back and nothing
    /// changes.
    pub fn give_back(&mut self, instance: F::Instance) -> (r: Result<(), F::Instance>)
        requires
            old(self).wf(),
        ensures
            final(self).wf(),
            final(self)@ == old(self)@.returned(instance),
            old(self)@.checked_out() > 0 ==> r == Ok::<(), F::Instance>(()),
            old(self)@.checked_out() <= 0 ==> r == Err::<(), F::Instance>(instance),
    {
        if self.live_count - self.pending - self.available.len() as u64 == 0 {
            return Err(instance);
        }
        if self.retired {
            self.live_count = self.live_count - 1;
        } else {
            self.available.push(instance);
        }
        Ok(())
    }

    /// Takes the slot out of service: no caller gets an instance from it any
    /// more, its idle instances are let go, and what is checked out is let go
    /// as it comes back.
    pub fn retire(&mut self)
        requires
            old(self).wf(),
        ensures
            final(self).wf(),
            final(self)@ == old(self)@.retired_now(),
    {
        self.live_count = self.live_count - self.available.len() as u64;
        self.available.clear();
        self.retired = true;
    }
}

/// Whatever happens to a well-formed slot leaves it well formed, with the
/// capacity it had.
pub proof fn lemma_event_keeps_bounds<F: Factory>(slot: SlotView<F>, event: SlotEvent<F::Instance>)
    requires
        slot.wf(),
    ensures
        slot.on(event).wf(),
        slot.on(event).capacity == slot.capacity,
        slot.on(event).factory == slot.factory,
{
}

/// Through every sequence of requests, creations, returns and retirements,
/// in any order and however often, a slot stays within its capacity: neither
/// its live count nor the number of instances checked out of it ever exceeds
/// it, and neither is negative.
pub proof fn lemma_bounds_hold_throughout<F: Factory>(
    slot: SlotView<F>,
    events: Seq<SlotEvent<F::Instance>>,
)
    requires
        slot.wf(),
    ensures
        slot.run(events).wf(),
        slot.run(events).capacity == slot.capacity,
        slot.run(events).live <= slot.capacity,
        0 <= slot.run(events).checked_out() <= slot.capacity,
    decreases events.len(),
{
    if events.len() > 0 {
        lemma_bounds_hold_throughout(slot, events.drop_last());
        lemma_event_keeps_bounds(slot.run(events.drop_last()), events.last());
    }
}

/// Callers that all ask a slot which has made nothing yet, before any
/// creation has been reported, are allowed as many creations as the slot has
/// room for and not one more, however many they are and whatever their
/// timeouts: every further caller is told to wait or to stop.
pub proof fn lemma_requests_at_once_are_capped<F: Factory>(
    factory: F,
    capacity: nat,
    events: Seq<SlotEvent<F::Instance>>,
    waited: u64,
    timeout: u64,
)
    requires
        capacity >= 1,
        forall|i: int| 0 <= i < events.len() ==> (#[trigger] events[i]) is Ask,
    ensures
        ({
            let end = SlotView::fresh(factory, capacity).run(events);
            &&& end.live == if events.len() <= capacity {
                events.len()
            } else {
                capacity
            }
            &&& end.pending == end.live
            &&& end.idle.len() == 0
            &&& !end.retired
            &&& end.capacity == capacity
            &&& events.len() >= capacity ==> end.decision(waited, timeout) is Wait
                || end.decision(waited, timeout) is GiveUp
        }),
    decreases events.len(),
{
    if events.len() > 0 {
        lemma_requests_at_once_are_capped(factory, capacity, events.drop_last(), waited, timeout);
        assert(events.last() is Ask);
    }
}

/// An instance that comes back to a slot in service is the one that the next
/// caller gets, at once and whatever its timeout, and handing it out puts the
/// slot back where it was before the return.
pub proof fn lemma_returned_instance_is_next<F: Factory>(
    slot: SlotView<F>,
    instance: F::Instance,
    waited: u64,
    timeout: u64,
)
    requires
        slot.wf(),
        !slot.retired,
        slot.checked_out() > 0,
    ensures
        slot.returned(instance).decision(waited, timeout) == Decision::Take(instance),
        slot.returned(instance).after(Decision::Take(instance)) == slot,
{
    let back = slot.returned(instance);
    assert(back.idle.last() == instance);
    assert(back.idle.drop_last() =~= slot.idle);
}

/// A caller is told to stop only when nothing is idle, the slot is at its
/// capacity and the caller's time is up; until then it is told to wait for
/// exactly the time it has left.
pub proof fn lemma_gives_up_only_when_time_is_up<F: Factory>(
    slot: SlotView<F>,
    waited: u64,
    timeout: u64,
)
    requires
        slot.wf(),
        !slot.retired,
    ensures
        slot.decision(waited, timeout) is GiveUp <==> slot.idle.len() == 0 && slot.live
            == slot.capacity && waited >= timeout,
        slot.decision(waited, timeout) is Wait <==> slot.idle.len() == 0 && slot.live
            == slot.capacity && waited < timeout,
        slot.decision(waited, timeout) matches Decision::Wait(remaining) ==> waited + remaining
            == timeout,
{
}

/// A creation that fails leaves the slot as it was before the creation was
/// allowed, so that the next caller may try again.
pub proof fn lemma_failed_creation_leaves_no_trace<F: Factory>(
    slot: SlotView<F>,
    waited: u64,
    timeout: u64,
)
    requires
        slot.wf(),
        slot.decision(waited, timeout) is Create,
    ensures
        slot.after(Decision::Create).settled(false) == slot,
        slot.after(Decision::Create).settled(true).live == slot.live + 1,
        slot.after(Decision::Create).settled(true).checked_out() == slot.checked_out() + 1,
{
}

} // verus!
