//! The pool: a registry of slots by key.
//!
//! The pool decides and keeps the books; it never blocks. A caller that wants
//! an instance asks with [`Pool::acquire`] and does what the answer says:
//! use the instance, run the slot's factory and report with
//! [`Pool::finish_create`], wait and ask again, or stop. Whoever shares a pool
//! between threads puts it behind a lock, waits outside of it, and wakes the
//! waiters that [`Pool::release`] and [`Pool::finish_create`] name.
//!
//! Registering a key again gives it a new slot. The slot it had is retired:
//! it hands nothing out any more, and what was checked out of it still comes
//! back to it, to its own accounting, and is let go there.

use crate::slot::{
    lemma_event_keeps_bounds, lemma_failed_creation_leaves_no_trace,
    lemma_returned_instance_is_next, Decision, Factory, KeySlot, SlotEvent, SlotView,
};
use vstd::hash_map::StringHashMap;
use vstd::prelude::*;

verus! {

/// Why the pool could not do what was asked.
#[derive(Debug, PartialEq, Eq)]
pub enum PoolError<E> {
    /// No slot is registered under the key.
    UnknownKey,
    /// The factory failed; this is its error.
    CreationFailed(E),
    /// A handle or a reservation came in that the slot it names has no
    /// record of: nothing was checked out of it, or no creation was pending.
    Misuse,
}

/// An instance checked out of a slot: the exclusive lease of its holder.
///
/// Only a pool makes one, and [`Pool::release`] consumes it, so that no
/// instance comes back twice.
#[derive(Debug)]
pub struct Checkout<T> {
    slot: usize,
    instance: T,
}

impl<T> Checkout<T> {
    /// The number of the slot that the instance belongs to.
    pub closed spec fn slot_id(&self) -> usize {
        self.slot
    }

    /// The instance held.
    pub closed spec fn value(&self) -> T {
        self.instance
    }

    /// The number of the slot that the instance belongs to.
    pub fn slot(&self) -> (slot: usize)
        ensures
            slot == self.slot_id(),
    {
        self.slot
    }

    /// The instance, to look at.
    pub fn get(&self) -> (instance: &T)
        ensures
            *instance == self.value(),
    {
        &self.instance
    }

    /// The instance, to work with. Whatever the holder does to it, it stays
    /// the instance of the same slot.
    pub fn get_mut(&mut self) -> (instance: &mut T)
        ensures
            *instance == old(self).value(),
            final(self).value() == *final(instance),
            final(self).slot_id() == old(self).slot_id(),
    {
        &mut self.instance
    }
}

/// The right to report one creation to the slot that allowed it.
#[derive(Debug)]
pub struct Reservation {
    slot: usize,
}

impl Reservation {
    /// The number of the slot that allowed the creation.
    pub closed spec fn slot_id(&self) -> usize {
        self.slot
    }

    /// The number of the slot that allowed the creation.
    pub fn slot(&self) -> (slot: usize)
        ensures
            slot == self.slot_id(),
    {
        self.slot
    }
}

/// What a caller of [`Pool::acquire`] has to do next.
#[derive(Debug)]
pub enum Step<T> {
    /// Use this instance, and release it when done.
    Ready(Checkout<T>),
    /// Run the factory of the reservation's slot and report what it returned
    /// with [`Pool::finish_create`].
    Create(Reservation),
    /// Block until a waiter of `slot` is woken or `remaining` has passed,
    /// then ask again.
    Wait { slot: usize, remaining: u64 },
    /// Stop without an instance: the time allowed has passed.
    TimedOut,
}

impl<T> Step<T> {
    /// Whether this step tells a caller of slot number `slot` what the slot
    /// decided.
    pub open spec fn conveys(self, slot: usize, decision: Decision<T>) -> bool {
        match decision {
            Decision::Take(instance) => self matches Step::Ready(c) && c.slot_id() == slot
                && c.value() == instance,
            Decision::Create => self matches Step::Create(r) && r.slot_id() == slot,
            Decision::Wait(remaining) => self == (Step::<T>::Wait { slot, remaining }),
            Decision::GiveUp => self == Step::<T>::TimedOut,
        }
    }
}

/// What [`Pool::register`] did.
#[derive(Debug, PartialEq, Eq)]
pub struct Registered {
    /// The number of the slot that the key has now.
    pub slot: usize,
    /// The number of the slot that the key had before, now retired. Its
    /// waiters are to be woken, all of them, so that they ask again.
    pub replaced: Option<usize>,
}

/// One thing that happens to a pool.
pub enum PoolEvent<F: Factory> {
    /// `key` is registered with `factory` and room for `capacity` instances.
    Register { key: Seq<char>, factory: F, capacity: nat },
    /// A caller who has waited `waited` out of `timeout` asks for an instance of `key`.
    Ask { key: Seq<char>, waited: u64, timeout: u64 },
    /// The end of a creation is reported to slot number `slot`.
    Settle { slot: usize, created: bool },
    /// `instance` is handed back to slot number `slot`.
    Return { slot: usize, instance: F::Instance },
}

/// The state of a pool: its slots in the order they were made, and the slot
/// that each key has now.
pub struct PoolView<F: Factory> {
    pub default_capacity: nat,
    pub index: Map<Seq<char>, usize>,
    pub slots: Seq<SlotView<F>>,
}

impl<F: Factory> PoolView<F> {
    /// The invariant of a pool: every slot is well formed and has a number
    /// that fits the machine, every key has a slot that is in service, and no
    /// two keys share one.
    pub open spec fn wf(self) -> bool {
        &&& 1 <= self.default_capacity
        &&& self.slots.len() <= usize::MAX
        &&& forall|i: int| 0 <= i < self.slots.len() ==> (#[trigger] self.slots[i]).wf()
        &&& forall|k: Seq<char>| #[trigger]
            self.index.contains_key(k) ==> self.index[k] < self.slots.len()
                && !self.slots[self.index[k] as int].retired
        &&& forall|k1: Seq<char>, k2: Seq<char>|
            #![trigger self.index[k1], self.index[k2]]
            self.index.contains_key(k1) && self.index.contains_key(k2) && self.index[k1]
                == self.index[k2] ==> k1 == k2
    }

    /// A pool without keys.
    pub open spec fn empty(default_capacity: nat) -> Self {
        PoolView { default_capacity, index: Map::empty(), slots: Seq::empty() }
    }

    /// Whether `key` has a slot.
    pub open spec fn registered(self, key: Seq<char>) -> bool {
        self.index.contains_key(key)
    }

    /// The slot that `key` has now.
    pub open spec fn current(self, key: Seq<char>) -> SlotView<F> {
        self.slots[self.index[key] as int]
    }

    /// The live count of `key`: that of its slot, and `0` without one.
    pub open spec fn count(self, key: Seq<char>) -> nat {
        if self.registered(key) {
            self.current(key).live
        } else {
            0
        }
    }

    /// Whether `slot` is the number of a slot of this pool.
    pub open spec fn has_slot(self, slot: usize) -> bool {
        slot < self.slots.len()
    }

    /// This pool with `slot` in the place of slot number `at`.
    pub open spec fn with_slot(self, at: usize, slot: SlotView<F>) -> Self {
        PoolView { slots: self.slots.update(at as int, slot), ..self }
    }

    /// The state once `key` has been registered with `factory` and
    /// `capacity`: a fresh slot at the end, which the key now has, and the
    /// slot that the key had, if any, retired.
    pub open spec fn registering(self, key: Seq<char>, factory: F, capacity: nat) -> Self {
        let kept = if self.registered(key) {
            self.slots.update(self.index[key] as int, self.current(key).retired_now())
        } else {
            self.slots
        };
        PoolView {
            index: self.index.insert(key, self.slots.len() as usize),
            slots: kept.push(SlotView::fresh(factory, capacity)),
            ..self
        }
    }

    /// The state once a caller has asked for an instance of `key`: the key's
    /// slot has accounted for what it told the caller, and an unknown key
    /// changes nothing.
    pub open spec fn asked(self, key: Seq<char>, waited: u64, timeout: u64) -> Self {
        if self.registered(key) {
            let slot = self.current(key);
            self.with_slot(self.index[key], slot.after(slot.decision(waited, timeout)))
        } else {
            self
        }
    }

    /// The state once the end of a creation has been reported to slot number
    /// `slot`.
    pub open spec fn settled(self, slot: usize, created: bool) -> Self {
        if self.has_slot(slot) {
            self.with_slot(slot, self.slots[slot as int].settled(created))
        } else {
            self
        }
    }

    /// The state once `instance` has come back to slot number `slot`.
    pub open spec fn returned(self, slot: usize, instance: F::Instance) -> Self {
        if self.has_slot(slot) {
            self.with_slot(slot, self.slots[slot as int].returned(instance))
        } else {
            self
        }
    }

    /// Whether `event` is one that the pool takes in this state: a slot is
    /// registered with room for at least one instance, and while there are
    /// slot numbers left.
    pub open spec fn takes(self, event: PoolEvent<F>) -> bool {
        event matches PoolEvent::Register { capacity, .. } ==> capacity >= 1 && self.slots.len()
            < usize::MAX
    }

    /// The state once `event` has happened.
    pub open spec fn on(self, event: PoolEvent<F>) -> Self {
        match event {
            PoolEvent::Register { key, factory, capacity } => self.registering(
                key,
                factory,
                capacity,
            ),
            PoolEvent::Ask { key, waited, timeout } => self.asked(key, waited, timeout),
            PoolEvent::Settle { slot, created } => self.settled(slot, created),
            PoolEvent::Return { slot, instance } => self.returned(slot, instance),
        }
    }

    /// The state once `events` have happened, one after the other.
    pub open spec fn run(self, events: Seq<PoolEvent<F>>) -> Self
        decreases events.len(),
    {
        if events.len() == 0 {
            self
        } else {
            self.run(events.drop_last()).on(events.last())
        }
    }

    /// Whether the pool takes each of `events` in the state that those
    /// before it have led to.
    pub open spec fn takes_all(self, events: Seq<PoolEvent<F>>) -> bool
        decreases events.len(),
    {
        events.len() > 0 ==> self.takes_all(events.drop_last()) && self.run(
            events.drop_last(),
        ).takes(events.last())
    }
}

/// A pool of instances, by key.
pub struct Pool<F: Factory> {
    default_max: u64,
    index: StringHashMap<usize>,
    slots: Vec<KeySlot<F>>,
}

impl<F: Factory> View for Pool<F> {
    type V = PoolView<F>;

    closed spec fn view(&self) -> PoolView<F> {
        PoolView {
            default_capacity: self.default_max as nat,
            index: self.index@,
            slots: Seq::new(self.slots@.len(), |i: int| self.slots@[i]@),
        }
    }
}

impl<F: Factory> Pool<F> {
    /// Whether the pool's books are consistent: see [`PoolView::wf`].
    pub open spec fn wf(&self) -> bool {
        self@.wf()
    }

    /// A pool without keys, whose slots hold up to `default_max_instances`
    /// instances unless they are registered with a capacity of their own.
    pub fn new(default_max_instances: u64) -> (pool: Self)
        requires
            default_max_instances >= 1,
        ensures
            pool.wf(),
            pool@ == PoolView::<F>::empty(default_max_instances as nat),
    {
        let pool = Pool {
            default_max: default_max_instances,
            index: StringHashMap::new(),
            slots: Vec::new(),
        };
        assert(pool@.slots =~= Seq::empty());
        pool
    }

    /// The capacity of a slot that is registered without one.
    pub fn default_max_instances(&self) -> (n: u64)
        ensures
            n == self@.default_capacity,
    {
        self.default_max
    }

    /// Gives `key` a fresh slot with `factory` and room for `max_instances`
    /// instances, or for the pool's default where that is `None`. A slot that
    /// the key had is retired.
    pub fn register(&mut self, key: String, factory: F, max_instances: Option<u64>) -> (r:
        Registered)
        requires
            old(self).wf(),
            max_instances matches Some(m) ==> m >= 1,
        ensures
            final(self).wf(),
            final(self)@ == old(self)@.registering(
                key@,
                factory,
                match max_instances {
                    Some(m) => m as nat,
                    None => old(self)@.default_capacity,
                },
            ),
            r.slot == old(self)@.slots.len(),
            r.replaced == if old(self)@.registered(key@) {
                Some(old(self)@.index[key@])
            } else {
                None
            },
    {
        let capacity = match max_instances {
            Some(m) => m,
            None => self.default_max,
        };
        let found = self.slot_of(key.as_str());
        let ghost before = self@;
        if let Some(at) = found {
            self.slots[at].retire();
        }
        let ghost kept = self@.slots;
        let slot = self.slots.len();
        self.slots.push(KeySlot::new(factory, capacity));
        self.index.insert(key, slot);
        proof {
            let expected = before.registering(key@, factory, capacity as nat);
            assert(found is Some ==> kept =~= before.slots.update(
                found->0 as int,
                before.current(key@).retired_now(),
            ));
            assert(found is None ==> kept =~= before.slots);
            assert(self@.slots =~= expected.slots);
            assert(self@.index =~= expected.index);
            assert(self.slots@.len() == self.slots.len());
            lemma_event_keeps_pool(
                before,
                PoolEvent::Register { key: key@, factory, capacity: capacity as nat },
            );
        }
        Registered { slot, replaced: found }
    }

    /// The number of the slot that `key` has now.
    pub fn slot_of(&self, key: &str) -> (slot: Option<usize>)
        ensures
            slot == if self@.registered(key@) {
                Some(self@.index[key@])
            } else {
                None
            },
    {
        match self.index.get(key) {
            Some(at) => Some(*at),
            None => None,
        }
    }

    /// The factory of slot number `slot`.
    pub fn factory(&self, slot: usize) -> (f: Option<&F>)
        ensures
            f == if self@.has_slot(slot) {
                Some(&self@.slots[slot as int].factory)
            } else {
                None
            },
    {
        if slot < self.slots.len() {
            Some(self.slots[slot].factory())
        } else {
            None
        }
    }

    /// The capacity of the slot that `key` has now.
    pub fn max_instances(&self, key: &str) -> (n: Option<u64>)
        requires
            self.wf(),
        ensures
            n matches Some(m) ==> self@.registered(key@) && m == self@.current(key@).capacity,
            n is None ==> !self@.registered(key@),
    {
        match self.slot_of(key) {
            Some(at) => Some(self.slots[at].max_instances()),
            None => None,
        }
    }

    /// The live count of `key`: how many instances its slot accounts for now,
    /// idle, checked out and pending. A key without a slot counts `0`.
    pub fn count(&self, key: &str) -> (n: u64)
        requires
            self.wf(),
        ensures
            n == self@.count(key@),
            self@.registered(key@) ==> n <= self@.current(key@).capacity,
    {
        match self.slot_of(key) {
            Some(at) => self.slots[at].count(),
            None => 0,
        }
    }

    /// Tells a caller who wants an instance of `key`, and has waited `waited`
    /// out of `timeout` for it, what to do next.
    ///
    /// An idle instance is handed out at once. Without one, the caller is
    /// told to create one while the slot is under its capacity, and room is
    /// set aside for it. At capacity the caller is told to wait for what is
    /// left of its time, and once nothing is left, to stop.
    pub fn acquire(&mut self, key: &str, waited: u64, timeout: u64) -> (r: Result<
        Step<F::Instance>,
        PoolError<F::Error>,
    >)
        requires
            old(self).wf(),
        ensures
            final(self).wf(),
            final(self)@ == old(self)@.asked(key@, waited, timeout),
            match r {
                Ok(step) => old(self)@.registered(key@) && step.conveys(
                    old(self)@.index[key@],
                    old(self)@.current(key@).decision(waited, timeout),
                ),
                Err(e) => !old(self)@.registered(key@) && e == PoolError::<F::Error>::UnknownKey,
            },
    {
        let at = match self.slot_of(key) {
            Some(at) => at,
            None => {
                return Err(PoolError::UnknownKey);
            },
        };
        let ghost before = self@;
        let decision = self.slots[at].step(waited, timeout);
        proof {
            assert(self@.slots =~= before.asked(key@, waited, timeout).slots);
            lemma_with_slot_wf(before, at, self@.slots[at as int]);
        }
        Ok(
            match decision {
                Decision::Take(instance) => Step::Ready(Checkout { slot: at, instance }),
                Decision::Create => Step::Create(Reservation { slot: at }),
                Decision::Wait(remaining) => Step::Wait { slot: at, remaining },
                Decision::GiveUp => Step::TimedOut,
            },
        )
    }

    /// Gets an instance of `key` without waiting, running the slot's factory
    /// on the spot where a new instance is allowed.
    ///
    /// An idle instance is handed out. Without one and under capacity, the
    /// factory decides: what it makes is handed out, and its failure comes
    /// back as [`PoolError::CreationFailed`] and leaves the pool as it was.
    /// At capacity there is nothing to hand out.
    pub fn try_acquire(&mut self, key: &str) -> (r: Result<
        Option<Checkout<F::Instance>>,
        PoolError<F::Error>,
    >)
        requires
            old(self).wf(),
        ensures
            final(self).wf(),
            Self::tried(old(self)@, key@, r, final(self)@),
    {
        let ghost before = self@;
        let step = match self.acquire(key, 0, 0) {
            Ok(step) => step,
            Err(e) => {
                return Err(e);
            },
        };
        match step {
            Step::Ready(checkout) => Ok(Some(checkout)),
            Step::Create(reservation) => {
                let at = reservation.slot;
                let made = self.slots[at].factory().create();
                let (outcome, _wake) = self.finish_create(reservation, made);
                proof {
                    lemma_failed_creation_leaves_no_trace(before.current(key@), 0, 0);
                    assert(made is Err ==> self@.slots =~= before.slots);
                }
                match outcome {
                    Ok(checkout) => Ok(Some(checkout)),
                    Err(e) => Err(e),
                }
            },
            Step::Wait { .. } => {
                assert(self@.slots =~= before.slots);
                Ok(None)
            },
            Step::TimedOut => {
                assert(self@.slots =~= before.slots);
                Ok(None)
            },
        }
    }

    /// What [`Pool::try_acquire`] does for `key` in the state `before`: its
    /// answer and the state `after` it. Where the factory runs, the answer
    /// holds what the slot's factory returned.
    pub open spec fn tried(
        before: PoolView<F>,
        key: Seq<char>,
        answer: Result<Option<Checkout<F::Instance>>, PoolError<F::Error>>,
        after: PoolView<F>,
    ) -> bool {
        if !before.registered(key) {
            answer == Err::<Option<Checkout<F::Instance>>, _>(PoolError::<F::Error>::UnknownKey)
                && after == before
        } else {
            let slot = before.index[key];
            match before.current(key).decision(0, 0) {
                Decision::Take(instance) => {
                    &&& answer matches Ok(Some(c)) && c.slot_id() == slot && c.value() == instance
                    &&& after == before.asked(key, 0, 0)
                },
                Decision::Create => {
                    ||| {
                        &&& answer matches Ok(Some(c)) && c.slot_id() == slot && call_ensures(
                            F::create,
                            (&before.current(key).factory,),
                            Ok(c.value()),
                        )
                        &&& after == before.asked(key, 0, 0).settled(slot, true)
                    }
                    ||| {
                        &&& answer matches Err(PoolError::CreationFailed(cause)) && call_ensures(
                            F::create,
                            (&before.current(key).factory,),
                            Err(cause),
                        )
                        &&& after == before
                    }
                },
                Decision::Wait(_) => answer == Ok::<_, PoolError<F::Error>>(
                    None::<Checkout<F::Instance>>,
                ) && after == before,
                Decision::GiveUp => answer == Ok::<_, PoolError<F::Error>>(
                    None::<Checkout<F::Instance>>,
                ) && after == before,
            }
        }
    }

    /// Takes the report of a creation that [`Pool::acquire`] allowed: `made`
    /// is what the factory returned.
    ///
    /// A new instance is handed out, checked out of the reservation's slot.
    /// A failure gives up the room set aside and comes back as
    /// [`PoolError::CreationFailed`], and the second part of the result names
    /// the slot of which one waiter is to be woken, since that slot may
    /// create again.
    pub fn finish_create(
        &mut self,
        reservation: Reservation,
        made: Result<F::Instance, F::Error>,
    ) -> (r: (Result<Checkout<F::Instance>, PoolError<F::Error>>, Option<usize>))
        requires
            old(self).wf(),
        ensures
            final(self).wf(),
            final(self)@ == old(self)@.settled(reservation.slot_id(), made is Ok),
            Self::reports(old(self)@, reservation.slot_id(), made, r.0, r.1),
    {
        let at = reservation.slot;
        if at >= self.slots.len() {
            return (Err(PoolError::Misuse), None);
        }
        let ghost before = self@;
        assert(before.slots[at as int].wf());
        let created = made.is_ok();
        let was_pending = self.slots[at].settle(created);
        proof {
            assert(self@.slots =~= before.settled(at, created).slots);
            lemma_with_slot_wf(before, at, self@.slots[at as int]);
        }
        if !was_pending {
            return (Err(PoolError::Misuse), None);
        }
        match made {
            Ok(instance) => (Ok(Checkout { slot: at, instance }), None),
            Err(cause) => {
                let wake = if self.slots[at].is_retired() {
                    None
                } else {
                    Some(at)
                };
                (Err(PoolError::CreationFailed(cause)), wake)
            },
        }
    }

    /// What [`Pool::finish_create`] answers when `made` is reported to slot
    /// number `slot` of `pool`: `outcome` for the caller, and in `wake` the
    /// slot of which one waiter is to be woken.
    pub open spec fn reports(
        pool: PoolView<F>,
        slot: usize,
        made: Result<F::Instance, F::Error>,
        outcome: Result<Checkout<F::Instance>, PoolError<F::Error>>,
        wake: Option<usize>,
    ) -> bool {
        if !pool.has_slot(slot) || pool.slots[slot as int].pending == 0 {
            outcome == Err::<Checkout<F::Instance>, _>(PoolError::<F::Error>::Misuse) && wake
                is None
        } else {
            match made {
                Ok(instance) => {
                    &&& outcome matches Ok(c) && c.slot_id() == slot && c.value() == instance
                    &&& wake is None
                },
                Err(cause) => {
                    &&& outcome == Err::<Checkout<F::Instance>, _>(
                        PoolError::CreationFailed(cause),
                    )
                    &&& wake == if pool.slots[slot as int].retired {
                        None
                    } else {
                        Some(slot)
                    }
                },
            }
        }
    }

    /// Gives up a creation that [`Pool::acquire`] allowed and that has come
    /// to nothing without the factory returning, so that the room set aside
    /// for it is not lost.
    ///
    /// The result names the slot of which one waiter is to be woken, as
    /// after a failed creation. A reservation that the slot it names has no
    /// record of is refused, and nothing changes.
    pub fn abandon_create(&mut self, reservation: Reservation) -> (r: Result<
        Option<usize>,
        PoolError<F::Error>,
    >)
        requires
            old(self).wf(),
        ensures
            final(self).wf(),
            final(self)@ == old(self)@.settled(reservation.slot_id(), false),
            r == Self::abandon_answer(old(self)@, reservation.slot_id()),
    {
        let at = reservation.slot;
        if at >= self.slots.len() {
            return Err(PoolError::Misuse);
        }
        let ghost before = self@;
        assert(before.slots[at as int].wf());
        let was_pending = self.slots[at].settle(false);
        proof {
            assert(self@.slots =~= before.settled(at, false).slots);
            lemma_with_slot_wf(before, at, self@.slots[at as int]);
        }
        if !was_pending {
            Err(PoolError::Misuse)
        } else if self.slots[at].is_retired() {
            Ok(None)
        } else {
            Ok(Some(at))
        }
    }

    /// What [`Pool::abandon_create`] answers when a creation is given up in
    /// slot number `slot` of `pool`.
    pub open spec fn abandon_answer(pool: PoolView<F>, slot: usize) -> Result<
        Option<usize>,
        PoolError<F::Error>,
    > {
        if !pool.has_slot(slot) || pool.slots[slot as int].pending == 0 {
            Err(PoolError::Misuse)
        } else if pool.slots[slot as int].retired {
            Ok(None)
        } else {
            Ok(Some(slot))
        }
    }

    /// Takes back a checked-out instance.
    ///
    /// In a slot that is in service the instance is idle again, the first to
    /// be handed out, and the result names that slot: one of its waiters is
    /// to be woken. A retired slot lets the instance go and has nobody to
    /// wake. A handle that the slot it names has no record of is refused, and
    /// nothing changes.
    pub fn release(&mut self, checkout: Checkout<F::Instance>) -> (r: Result<
        Option<usize>,
        PoolError<F::Error>,
    >)
        requires
            old(self).wf(),
        ensures
            final(self).wf(),
            final(self)@ == old(self)@.returned(checkout.slot_id(), checkout.value()),
            r == Self::release_answer(old(self)@, checkout.slot_id()),
    {
        let Checkout { slot: at, instance } = checkout;
        if at >= self.slots.len() {
            return Err(PoolError::Misuse);
        }
        let ghost before = self@;
        assert(before.slots[at as int].wf());
        let retired = self.slots[at].is_retired();
        let given = self.slots[at].give_back(instance);
        proof {
            assert(self@.slots =~= before.returned(at, instance).slots);
            lemma_with_slot_wf(before, at, self@.slots[at as int]);
        }
        match given {
            Ok(()) => if retired {
                Ok(None)
            } else {
                Ok(Some(at))
            },
            Err(_) => Err(PoolError::Misuse),
        }
    }

    /// What [`Pool::release`] answers when an instance comes back to slot
    /// number `slot` of `pool`.
    pub open spec fn release_answer(pool: PoolView<F>, slot: usize) -> Result<
        Option<usize>,
        PoolError<F::Error>,
    > {
        if !pool.has_slot(slot) || pool.slots[slot as int].checked_out() <= 0 {
            Err(PoolError::Misuse)
        } else if pool.slots[slot as int].retired {
            Ok(None)
        } else {
            Ok(Some(slot))
        }
    }
}

/// Replacing one slot of a well-formed pool by a well-formed slot that is
/// retired only if the old one was leaves the pool well formed.
proof fn lemma_with_slot_wf<F: Factory>(pool: PoolView<F>, at: usize, slot: SlotView<F>)
    requires
        pool.wf(),
        pool.has_slot(at),
        slot.wf(),
        slot.retired == pool.slots[at as int].retired,
    ensures
        pool.with_slot(at, slot).wf(),
{
    let after = pool.with_slot(at, slot);
    assert forall|i: int| 0 <= i < after.slots.len() implies (#[trigger] after.slots[i]).wf() by {
        if i != at {
            assert(pool.slots[i].wf());
        }
    }
    assert forall|k: Seq<char>| #[trigger] after.index.contains_key(k) implies after.index[k]
        < after.slots.len() && !after.slots[after.index[k] as int].retired by {
        assert(pool.index.contains_key(k));
    }
}

/// Whatever happens to a well-formed pool leaves it well formed.
pub proof fn lemma_event_keeps_pool<F: Factory>(pool: PoolView<F>, event: PoolEvent<F>)
    requires
        pool.wf(),
        pool.takes(event),
    ensures
        pool.on(event).wf(),
        pool.on(event).slots.len() <= pool.slots.len() + 1,
{
    let after = pool.on(event);
    match event {
        PoolEvent::Register { key, factory, capacity } => {
            assert forall|i: int| 0 <= i < after.slots.len() implies (#[trigger] after.slots[
                i
            ]).wf() by {
                if i < pool.slots.len() {
                    assert(pool.slots[i].wf());
                }
            }
            assert forall|k: Seq<char>| #[trigger]
                after.index.contains_key(k) implies after.index[k] < after.slots.len()
                && !after.slots[after.index[k] as int].retired by {
                if k != key {
                    assert(pool.index.contains_key(k));
                    if pool.registered(key) {
                        assert(pool.index[k] != pool.index[key]);
                    }
                }
            }
            assert forall|k1: Seq<char>, k2: Seq<char>|
                #![trigger after.index[k1], after.index[k2]]
                after.index.contains_key(k1) && after.index.contains_key(k2) && after.index[k1]
                    == after.index[k2] implies k1 == k2 by {
                if k1 != key {
                    assert(pool.index.contains_key(k1));
                }
                if k2 != key {
                    assert(pool.index.contains_key(k2));
                }
            }
        },
        PoolEvent::Ask { key, waited, timeout } => {
            if pool.registered(key) {
                let slot = pool.current(key);
                lemma_event_keeps_bounds(slot, SlotEvent::Ask { waited, timeout });
                let asked = slot.on(SlotEvent::Ask { waited, timeout });
                lemma_with_slot_wf(pool, pool.index[key], asked);
            }
        },
        PoolEvent::Settle { slot, created } => {
            if pool.has_slot(slot) {
                let s = pool.slots[slot as int];
                lemma_event_keeps_bounds(s, SlotEvent::Settle { created });
                lemma_with_slot_wf(pool, slot, s.on(SlotEvent::Settle { created }));
            }
        },
        PoolEvent::Return { slot, instance } => {
            if pool.has_slot(slot) {
                let s = pool.slots[slot as int];
                lemma_event_keeps_bounds(s, SlotEvent::Return(instance));
                lemma_with_slot_wf(pool, slot, s.on(SlotEvent::Return(instance)));
            }
        },
    }
}

/// Through every sequence of registrations, requests, creations and returns,
/// for any keys and in any order, the pool stays well formed, and so the live
/// count of every key stays within the capacity of the key's slot, and so
/// does the number of instances checked out of it.
pub proof fn lemma_counts_stay_within_capacity<F: Factory>(
    pool: PoolView<F>,
    events: Seq<PoolEvent<F>>,
    key: Seq<char>,
)
    requires
        pool.wf(),
        pool.takes_all(events),
    ensures
        pool.run(events).wf(),
        pool.run(events).registered(key) ==> {
            &&& pool.run(events).count(key) <= pool.run(events).current(key).capacity
            &&& 0 <= pool.run(events).current(key).checked_out() <= pool.run(events).current(
                key,
            ).capacity
        },
        !pool.run(events).registered(key) ==> pool.run(events).count(key) == 0,
    decreases events.len(),
{
    if events.len() > 0 {
        lemma_counts_stay_within_capacity(pool, events.drop_last(), key);
        lemma_event_keeps_pool(pool.run(events.drop_last()), events.last());
    }
    let end = pool.run(events);
    if end.registered(key) {
        assert(end.index.contains_key(key));
        assert(end.slots[end.index[key] as int].wf());
    }
}

/// What is asked of one key, reported to its slot or handed back to it
/// leaves the slot of every other key as it was; and registering a key
/// leaves the slot of every other key as it was, under the number it had.
pub proof fn lemma_keys_do_not_interfere<F: Factory>(
    pool: PoolView<F>,
    key: Seq<char>,
    other: Seq<char>,
    event: PoolEvent<F>,
)
    requires
        pool.wf(),
        pool.registered(other),
        key != other,
        match event {
            PoolEvent::Register { key: k, .. } => k == key,
            PoolEvent::Ask { key: k, .. } => k == key,
            PoolEvent::Settle { slot, .. } => pool.registered(key) && slot == pool.index[key],
            PoolEvent::Return { slot, .. } => pool.registered(key) && slot == pool.index[key],
        },
    ensures
        pool.on(event).registered(other),
        pool.on(event).index[other] == pool.index[other],
        pool.on(event).current(other) == pool.current(other),
{
    assert(pool.index.contains_key(other));
    if pool.registered(key) {
        assert(pool.index.contains_key(key));
        assert(pool.index[key] != pool.index[other]);
    }
}

/// An instance handed back under a key is what the next caller for that key
/// gets, at once and whatever its timeout, and handing it out puts the pool
/// back where it was before the return.
pub proof fn lemma_release_feeds_next_acquire<F: Factory>(
    pool: PoolView<F>,
    key: Seq<char>,
    instance: F::Instance,
    waited: u64,
    timeout: u64,
)
    requires
        pool.wf(),
        pool.registered(key),
        pool.current(key).checked_out() > 0,
    ensures
        pool.returned(pool.index[key], instance).registered(key),
        pool.returned(pool.index[key], instance).current(key).decision(waited, timeout)
            == Decision::Take(instance),
        pool.returned(pool.index[key], instance).asked(key, waited, timeout) == pool,
{
    assert(pool.index.contains_key(key));
    let slot = pool.current(key);
    lemma_returned_instance_is_next(slot, instance, waited, timeout);
    let back = pool.returned(pool.index[key], instance);
    assert(back.asked(key, waited, timeout).slots =~= pool.slots);
}

} // verus!
