use instance_pool::pool::{Checkout, Pool, PoolError, Registered, Step};
use instance_pool::slot::Factory;
use instance_pool::to_bytes::ToBytes;
use std::cell::Cell;
use std::rc::Rc;

/// What the tests pool: something with a number that can be called.
#[derive(Debug)]
struct Worker {
    id: u32,
    calls: u32,
    dropped: Rc<Cell<u32>>,
}

impl Worker {
    fn call<'a, I: ToBytes<'a>>(&mut self, name: &str, input: I) -> Result<String, String> {
        if name != "count_vowels" {
            return Err(format!("no function {}", name));
        }
        let bytes = input.to_vec().map_err(|e| e.message().to_string())?;
        self.calls += 1;
        let vowels = bytes.iter().filter(|b| b"aeiouAEIOU".contains(*b)).count();
        Ok(format!("{}", vowels))
    }
}

impl Drop for Worker {
    fn drop(&mut self) {
        self.dropped.set(self.dropped.get() + 1);
    }
}

/// Makes workers numbered from 1, and fails as long as `failing` is set.
struct Workshop {
    made: Rc<Cell<u32>>,
    dropped: Rc<Cell<u32>>,
    failing: Rc<Cell<bool>>,
}

impl Workshop {
    fn new() -> Workshop {
        Workshop {
            made: Rc::new(Cell::new(0)),
            dropped: Rc::new(Cell::new(0)),
            failing: Rc::new(Cell::new(false)),
        }
    }

    fn another(&self) -> Workshop {
        Workshop {
            made: self.made.clone(),
            dropped: self.dropped.clone(),
            failing: self.failing.clone(),
        }
    }
}

impl Factory for Workshop {
    type Instance = Worker;
    type Error = String;

    fn create(&self) -> Result<Worker, String> {
        if self.failing.get() {
            return Err("out of parts".to_string());
        }
        self.made.set(self.made.get() + 1);
        Ok(Worker { id: self.made.get(), calls: 0, dropped: self.dropped.clone() })
    }
}

type Outcome = Result<Option<Checkout<Worker>>, PoolError<String>>;

/// One request from start to end by the steps of the pool, where waiting is
/// a jump of the clock: what a caller gets who is alone with the pool.
fn acquire_alone(pool: &mut Pool<Workshop>, key: &str, timeout: u64) -> (Outcome, u64) {
    let mut waited = 0;
    loop {
        match pool.acquire(key, waited, timeout) {
            Err(e) => return (Err(e), waited),
            Ok(Step::Ready(checkout)) => return (Ok(Some(checkout)), waited),
            Ok(Step::Create(reservation)) => {
                let made = pool.factory(reservation.slot()).unwrap().create();
                return (pool.finish_create(reservation, made).0.map(Some), waited);
            }
            Ok(Step::Wait { remaining, .. }) => waited += remaining,
            Ok(Step::TimedOut) => return (Ok(None), waited),
        }
    }
}

struct Caller {
    arrives: u64,
    holds: u64,
    since: Option<u64>,
    holding: Option<(Checkout<Worker>, u64)>,
    answer: Option<String>,
    gave_up: bool,
}

/// Runs callers against one key on a clock of milliseconds. Each arrives at
/// its time, asks with `timeout`, calls its worker, holds it for its time and
/// hands it back; a waiter asks again when a return wakes it and when its
/// time is up. After every step the live count is held against `max`.
fn simulate(
    pool: &mut Pool<Workshop>,
    key: &str,
    max: u64,
    timeout: u64,
    plan: &[(u64, u64)],
) -> Vec<Caller> {
    let mut callers: Vec<Caller> = plan
        .iter()
        .map(|&(arrives, holds)| Caller {
            arrives,
            holds,
            since: None,
            holding: None,
            answer: None,
            gave_up: false,
        })
        .collect();
    let end = plan.iter().map(|&(a, h)| a + h).max().unwrap_or(0) + timeout + 1;
    let mut now = 0;
    while now <= end {
        let mut woken = 0;
        for c in callers.iter_mut() {
            if matches!(c.holding, Some((_, until)) if until == now) {
                let (checkout, _) = c.holding.take().unwrap();
                if pool.release(checkout).unwrap().is_some() {
                    woken += 1;
                }
                assert!(pool.count(key) <= max);
            }
        }
        for c in callers.iter_mut() {
            let arriving = c.arrives == now && c.since.is_none();
            let waiting =
                c.since.is_some() && c.holding.is_none() && c.answer.is_none() && !c.gave_up;
            let due = waiting && now - c.since.unwrap() >= timeout;
            if !(arriving || (waiting && (woken > 0 || due))) {
                continue;
            }
            if waiting && !due {
                woken -= 1;
            }
            let since = *c.since.get_or_insert(now);
            let got = match pool.acquire(key, now - since, timeout).unwrap() {
                Step::Ready(checkout) => Some(checkout),
                Step::Create(reservation) => {
                    let made = pool.factory(reservation.slot()).unwrap().create();
                    Some(pool.finish_create(reservation, made).0.unwrap())
                }
                Step::Wait { remaining, .. } => {
                    assert_eq!(remaining, timeout - (now - since));
                    None
                }
                Step::TimedOut => {
                    assert!(now - since >= timeout);
                    c.gave_up = true;
                    None
                }
            };
            assert!(pool.count(key) <= max);
            if let Some(mut checkout) = got {
                c.answer = Some(checkout.get_mut().call("count_vowels", "abc").unwrap());
                c.holding = Some((checkout, now + c.holds));
            }
        }
        now += 1;
    }
    callers
}

#[test]
fn test_threads() {
    for i in 1..=3 {
        let mut pool: Pool<Workshop> = Pool::new(i);
        let test = "test".to_string();
        pool.register(test.clone(), Workshop::new(), None);

        let plan = [
            (1000, 5),
            (1000, 5),
            (1000, 5),
            (1000, 5),
            (1000, 5),
            (1000, 5),
            (500, 5),
            (500, 5),
            (500, 5),
            (500, 5),
            (500, 5),
            (0, 5),
        ];
        let callers = simulate(&mut pool, &test, i, 1000, &plan);
        for c in callers.iter() {
            assert_eq!(c.answer.as_deref(), Some("1"));
        }
        assert!(pool.count(&test) <= i);
    }
}

#[test]
fn twelve_callers_share_two_instances() {
    let mut pool: Pool<Workshop> = Pool::new(8);
    let shop = Workshop::new();
    let made = shop.made.clone();
    pool.register("test".to_string(), shop, Some(2));
    let plan = [
        (0, 40),
        (0, 10),
        (0, 25),
        (3, 7),
        (3, 60),
        (10, 1),
        (10, 30),
        (11, 30),
        (50, 5),
        (50, 5),
        (50, 5),
        (120, 90),
    ];
    let callers = simulate(&mut pool, "test", 2, 1000, &plan);
    assert_eq!(callers.len(), 12);
    for c in callers.iter() {
        assert_eq!(c.answer.as_deref(), Some("1"));
        assert!(!c.gave_up);
    }
    assert_eq!(pool.count("test"), 2);
    assert_eq!(made.get(), 2);
}

#[test]
fn a_second_caller_times_out_and_a_third_succeeds_after_the_release() {
    let mut pool: Pool<Workshop> = Pool::new(1);
    pool.register("k".to_string(), Workshop::new(), Some(1));

    let (a, waited) = acquire_alone(&mut pool, "k", 1000);
    let a = a.unwrap().unwrap();
    assert_eq!(waited, 0);
    assert_eq!(pool.count("k"), 1);

    // the second caller is told to wait for all of its 100, and then to stop
    assert!(matches!(pool.acquire("k", 0, 100), Ok(Step::Wait { slot: 0, remaining: 100 })));
    assert!(matches!(pool.acquire("k", 40, 100), Ok(Step::Wait { slot: 0, remaining: 60 })));
    assert!(matches!(pool.acquire("k", 99, 100), Ok(Step::Wait { slot: 0, remaining: 1 })));
    assert!(matches!(pool.acquire("k", 100, 100), Ok(Step::TimedOut)));
    let (b, waited) = acquire_alone(&mut pool, "k", 100);
    assert!(matches!(b, Ok(None)));
    assert_eq!(waited, 100);
    assert_eq!(pool.count("k"), 1);

    assert_eq!(pool.release(a), Ok(Some(0)));
    assert_eq!(pool.count("k"), 1);

    let (c, waited) = acquire_alone(&mut pool, "k", 1000);
    let c = c.unwrap().unwrap();
    assert_eq!(waited, 0);
    assert_eq!(c.get().id, 1);
    assert_eq!(pool.count("k"), 1);
}

#[test]
fn an_unknown_key_is_an_error_and_counts_nothing() {
    let mut pool: Pool<Workshop> = Pool::new(4);
    assert!(matches!(pool.acquire("missing", 0, 10), Err(PoolError::UnknownKey)));
    assert!(matches!(pool.try_acquire("missing"), Err(PoolError::UnknownKey)));
    assert_eq!(pool.count("missing"), 0);
    assert_eq!(pool.max_instances("missing"), None);
    assert_eq!(pool.slot_of("missing"), None);
    assert!(pool.factory(0).is_none());
    pool.register("present".to_string(), Workshop::new(), None);
    assert!(matches!(pool.acquire("missing", 0, 10), Err(PoolError::UnknownKey)));
    assert!(matches!(pool.acquire("presen", 0, 10), Err(PoolError::UnknownKey)));
    assert_eq!(pool.count("present"), 0);
}

#[test]
fn a_slot_without_a_capacity_takes_the_default() {
    let mut pool: Pool<Workshop> = Pool::new(3);
    assert_eq!(pool.default_max_instances(), 3);
    let first = pool.register("a".to_string(), Workshop::new(), None);
    let second = pool.register("b".to_string(), Workshop::new(), Some(7));
    assert_eq!(first, Registered { slot: 0, replaced: None });
    assert_eq!(second, Registered { slot: 1, replaced: None });
    assert_eq!(pool.max_instances("a"), Some(3));
    assert_eq!(pool.max_instances("b"), Some(7));
    assert_eq!(pool.slot_of("a"), Some(0));
    assert_eq!(pool.slot_of("b"), Some(1));
}

#[test]
fn instances_are_made_up_to_the_capacity_and_no_further() {
    let mut pool: Pool<Workshop> = Pool::new(1);
    pool.register("k".to_string(), Workshop::new(), Some(3));
    let mut held = Vec::new();
    for n in 1..=3u64 {
        let got = pool.try_acquire("k").unwrap().unwrap();
        assert_eq!(got.get().id as u64, n);
        assert_eq!(got.slot(), 0);
        held.push(got);
        assert_eq!(pool.count("k"), n);
    }
    assert!(matches!(pool.try_acquire("k"), Ok(None)));
    assert!(matches!(pool.acquire("k", 0, 0), Ok(Step::TimedOut)));
    assert_eq!(pool.count("k"), 3);
    for checkout in held {
        assert_eq!(pool.release(checkout), Ok(Some(0)));
        assert_eq!(pool.count("k"), 3);
    }
}

#[test]
fn room_is_set_aside_before_the_factory_runs() {
    let mut pool: Pool<Workshop> = Pool::new(2);
    pool.register("k".to_string(), Workshop::new(), None);
    let first = match pool.acquire("k", 0, 50) {
        Ok(Step::Create(r)) => r,
        other => panic!("{:?}", other),
    };
    let second = match pool.acquire("k", 0, 50) {
        Ok(Step::Create(r)) => r,
        other => panic!("{:?}", other),
    };
    assert_eq!(first.slot(), 0);
    // both creations are under way: a third caller has to wait
    assert_eq!(pool.count("k"), 2);
    assert!(matches!(pool.acquire("k", 0, 50), Ok(Step::Wait { slot: 0, remaining: 50 })));
    let made = pool.factory(0).unwrap().create();
    let (a, wake) = pool.finish_create(first, made);
    assert_eq!(a.unwrap().get().id, 1);
    assert_eq!(wake, None);
    let (b, wake) = pool.finish_create(second, Err("broken".to_string()));
    assert_eq!(b.unwrap_err(), PoolError::CreationFailed("broken".to_string()));
    assert_eq!(wake, Some(0));
    assert_eq!(pool.count("k"), 1);
    assert!(matches!(pool.acquire("k", 0, 50), Ok(Step::Create(_))));
}

#[test]
fn a_failed_creation_is_reported_and_leaves_the_count() {
    let mut pool: Pool<Workshop> = Pool::new(1);
    let shop = Workshop::new();
    let failing = shop.failing.clone();
    pool.register("k".to_string(), shop, None);
    failing.set(true);
    assert_eq!(
        pool.try_acquire("k").unwrap_err(),
        PoolError::CreationFailed("out of parts".to_string())
    );
    assert_eq!(pool.count("k"), 0);
    let (again, _) = acquire_alone(&mut pool, "k", 10);
    assert_eq!(again.unwrap_err(), PoolError::CreationFailed("out of parts".to_string()));
    assert_eq!(pool.count("k"), 0);
    failing.set(false);
    let got = pool.try_acquire("k").unwrap().unwrap();
    assert_eq!(got.get().id, 1);
    assert_eq!(pool.count("k"), 1);
}

#[test]
fn the_instance_returned_last_goes_out_first() {
    let mut pool: Pool<Workshop> = Pool::new(3);
    pool.register("k".to_string(), Workshop::new(), None);
    let one = pool.try_acquire("k").unwrap().unwrap();
    let two = pool.try_acquire("k").unwrap().unwrap();
    let three = pool.try_acquire("k").unwrap().unwrap();
    pool.release(two).unwrap();
    pool.release(three).unwrap();
    pool.release(one).unwrap();
    let order: Vec<u32> =
        (0..3).map(|_| pool.try_acquire("k").unwrap().unwrap().get().id).collect();
    assert_eq!(order, vec![1, 3, 2]);
}

#[test]
fn a_released_instance_is_what_a_waiter_gets() {
    let mut pool: Pool<Workshop> = Pool::new(1);
    pool.register("k".to_string(), Workshop::new(), None);
    let mut held = pool.try_acquire("k").unwrap().unwrap();
    held.get_mut().call("count_vowels", "queue").unwrap();
    assert!(matches!(pool.acquire("k", 0, 1000), Ok(Step::Wait { slot: 0, remaining: 1000 })));
    assert_eq!(pool.release(held), Ok(Some(0)));
    match pool.acquire("k", 20, 1000) {
        Ok(Step::Ready(checkout)) => {
            assert_eq!(checkout.get().id, 1);
            assert_eq!(checkout.get().calls, 1);
        }
        other => panic!("{:?}", other),
    }
    // and even one whose time is up gets it
    let mut pool: Pool<Workshop> = Pool::new(1);
    pool.register("k".to_string(), Workshop::new(), None);
    let held = pool.try_acquire("k").unwrap().unwrap();
    pool.release(held).unwrap();
    assert!(matches!(pool.acquire("k", 500, 100), Ok(Step::Ready(_))));
}

#[test]
fn keys_do_not_share_capacity() {
    let mut pool: Pool<Workshop> = Pool::new(1);
    pool.register("a".to_string(), Workshop::new(), Some(1));
    pool.register("b".to_string(), Workshop::new(), Some(2));
    let a = pool.try_acquire("a").unwrap().unwrap();
    assert!(matches!(pool.try_acquire("a"), Ok(None)));
    assert_eq!(pool.count("b"), 0);
    let b1 = pool.try_acquire("b").unwrap().unwrap();
    let b2 = pool.try_acquire("b").unwrap().unwrap();
    assert_eq!((a.slot(), b1.slot(), b2.slot()), (0, 1, 1));
    assert_eq!(pool.count("a"), 1);
    assert_eq!(pool.count("b"), 2);
    assert_eq!(pool.release(b1), Ok(Some(1)));
    assert!(matches!(pool.try_acquire("a"), Ok(None)));
    assert_eq!(pool.release(a), Ok(Some(0)));
    assert_eq!(pool.count("a"), 1);
    assert_eq!(pool.count("b"), 2);
    pool.release(b2).unwrap();
}

#[test]
fn registering_again_retires_the_old_slot() {
    let mut pool: Pool<Workshop> = Pool::new(2);
    let old = Workshop::new();
    let dropped = old.dropped.clone();
    pool.register("k".to_string(), old.another(), Some(2));
    let out = pool.try_acquire("k").unwrap().unwrap();
    let idle = pool.try_acquire("k").unwrap().unwrap();
    pool.release(idle).unwrap();
    assert_eq!(pool.count("k"), 2);
    assert_eq!(dropped.get(), 0);

    let again = pool.register("k".to_string(), Workshop::new(), Some(1));
    assert_eq!(again, Registered { slot: 1, replaced: Some(0) });
    // the idle instance of the old slot is gone, the key starts afresh
    assert_eq!(dropped.get(), 1);
    assert_eq!(pool.count("k"), 0);
    assert_eq!(pool.max_instances("k"), Some(1));
    assert_eq!(pool.slot_of("k"), Some(1));

    let fresh = pool.try_acquire("k").unwrap().unwrap();
    assert_eq!(fresh.slot(), 1);
    assert_eq!(fresh.get().id, 1);
    assert_eq!(pool.count("k"), 1);

    // what was checked out of the old slot returns to it and is let go
    assert_eq!(out.slot(), 0);
    assert_eq!(pool.release(out), Ok(None));
    assert_eq!(dropped.get(), 2);
    assert_eq!(pool.count("k"), 1);
    assert!(matches!(pool.try_acquire("k"), Ok(None)));
    assert_eq!(pool.release(fresh), Ok(Some(1)));
    assert_eq!(pool.count("k"), 1);
}

#[test]
fn a_creation_that_ends_after_its_slot_retired_is_still_accounted_for() {
    let mut pool: Pool<Workshop> = Pool::new(1);
    pool.register("k".to_string(), Workshop::new(), None);
    let slow = match pool.acquire("k", 0, 0) {
        Ok(Step::Create(r)) => r,
        other => panic!("{:?}", other),
    };
    let failing = match pool.register("k".to_string(), Workshop::new(), Some(2)) {
        Registered { replaced: Some(0), slot: 1 } => match pool.acquire("k", 0, 0) {
            Ok(Step::Create(r)) => r,
            other => panic!("{:?}", other),
        },
        other => panic!("{:?}", other),
    };
    let made = pool.factory(slow.slot()).unwrap().create();
    let (late, wake) = pool.finish_create(slow, made);
    let late = late.unwrap();
    assert_eq!((late.slot(), wake), (0, None));
    assert_eq!(pool.release(late), Ok(None));
    let (none, wake) = pool.finish_create(failing, Err("no".to_string()));
    assert_eq!(none.unwrap_err(), PoolError::CreationFailed("no".to_string()));
    assert_eq!(wake, Some(1));
    assert_eq!(pool.count("k"), 0);
}

#[test]
fn what_the_books_do_not_know_is_refused() {
    let mut ours: Pool<Workshop> = Pool::new(1);
    let mut theirs: Pool<Workshop> = Pool::new(1);
    ours.register("k".to_string(), Workshop::new(), None);
    theirs.register("k".to_string(), Workshop::new(), None);

    // a handle of another pool, for a slot that has nothing checked out
    let foreign = theirs.try_acquire("k").unwrap().unwrap();
    assert_eq!(ours.release(foreign), Err(PoolError::Misuse));
    assert_eq!(ours.count("k"), 0);
    assert!(matches!(ours.try_acquire("k"), Ok(Some(_))));

    // a reservation of another pool, for a slot that has nothing pending
    let reservation = match theirs.acquire("k", 0, 0) {
        Ok(Step::TimedOut) => {
            let mut third: Pool<Workshop> = Pool::new(1);
            third.register("k".to_string(), Workshop::new(), None);
            match third.acquire("k", 0, 0) {
                Ok(Step::Create(r)) => r,
                other => panic!("{:?}", other),
            }
        }
        other => panic!("{:?}", other),
    };
    let made = theirs.factory(0).unwrap().create();
    let (refused, wake) = theirs.finish_create(reservation, made);
    assert_eq!(refused.unwrap_err(), PoolError::Misuse);
    assert_eq!(wake, None);
    assert_eq!(theirs.count("k"), 1);

    // a handle for a slot number that the pool does not have
    let mut wide: Pool<Workshop> = Pool::new(1);
    wide.register("a".to_string(), Workshop::new(), None);
    wide.register("b".to_string(), Workshop::new(), None);
    let far = wide.try_acquire("b").unwrap().unwrap();
    assert_eq!(far.slot(), 1);
    assert_eq!(ours.release(far), Err(PoolError::Misuse));
    let mut empty: Pool<Workshop> = Pool::new(1);
    let r = match wide.acquire("a", 0, 0) {
        Ok(Step::Create(r)) => r,
        other => panic!("{:?}", other),
    };
    let (refused, wake) = empty.finish_create(r, Err("unused".to_string()));
    assert_eq!((refused.unwrap_err(), wake), (PoolError::Misuse, None));
}

#[test]
fn a_holder_works_with_its_instance() {
    let mut pool: Pool<Workshop> = Pool::new(1);
    pool.register("k".to_string(), Workshop::new(), None);
    let mut checkout = pool.try_acquire("k").unwrap().unwrap();
    assert_eq!(checkout.get_mut().call("count_vowels", "education").unwrap(), "5");
    assert_eq!(checkout.get_mut().call("count_vowels", 7u32).unwrap(), "0");
    assert_eq!(checkout.get_mut().call("count_vowels", Some("AEIOU".to_string())).unwrap(), "5");
    assert!(checkout.get_mut().call("missing", "x").is_err());
    assert_eq!(checkout.get().calls, 3);
    pool.release(checkout).unwrap();
    let back = pool.try_acquire("k").unwrap().unwrap();
    assert_eq!(back.get().calls, 3);
}

#[test]
fn the_counts_stay_within_capacity_whatever_is_asked() {
    let mut pool: Pool<Workshop> = Pool::new(2);
    let keys = ["a", "b", "c"];
    let caps = [1u64, 2, 5];
    let shops: Vec<Workshop> = keys.iter().map(|_| Workshop::new()).collect();
    for ((key, cap), shop) in keys.iter().zip(caps.iter()).zip(shops.iter()) {
        pool.register(key.to_string(), shop.another(), Some(*cap));
    }
    let mut held: Vec<Vec<Checkout<Worker>>> = vec![Vec::new(), Vec::new(), Vec::new()];
    let mut reserved = vec![Vec::new(), Vec::new(), Vec::new()];
    let mut x: u64 = 12345;
    for _ in 0..5000 {
        x = x.wrapping_mul(6364136223846793005).wrapping_add(1442695040888963407);
        let k = ((x >> 33) % 3) as usize;
        match (x >> 40) % 5 {
            0 | 1 => match pool.acquire(keys[k], (x >> 50) % 4, 2).unwrap() {
                Step::Ready(c) => held[k].push(c),
                Step::Create(r) => reserved[k].push(r),
                Step::Wait { slot, remaining } => {
                    assert_eq!(slot, k);
                    assert!(remaining >= 1 && remaining <= 2);
                }
                Step::TimedOut => {}
            },
            2 => {
                if let Some(r) = reserved[k].pop() {
                    shops[k].failing.set((x >> 60) % 2 == 0);
                    let made = pool.factory(r.slot()).unwrap().create();
                    if let Ok(c) = pool.finish_create(r, made).0 {
                        held[k].push(c);
                    }
                }
            }
            _ => {
                if let Some(c) = held[k].pop() {
                    assert_eq!(pool.release(c), Ok(Some(k)));
                }
            }
        }
        for i in 0..3 {
            let count = pool.count(keys[i]);
            assert!(count <= caps[i]);
            assert!((held[i].len() + reserved[i].len()) as u64 <= count);
            assert!(held[i].len() as u64 <= caps[i]);
        }
    }
}

#[test]
fn an_abandoned_creation_gives_its_room_back() {
    let mut pool: Pool<Workshop> = Pool::new(1);
    pool.register("k".to_string(), Workshop::new(), None);
    let reservation = match pool.acquire("k", 0, 10) {
        Ok(Step::Create(r)) => r,
        other => panic!("{:?}", other),
    };
    assert_eq!(pool.count("k"), 1);
    assert!(matches!(pool.acquire("k", 0, 10), Ok(Step::Wait { slot: 0, remaining: 10 })));
    assert_eq!(pool.abandon_create(reservation), Ok(Some(0)));
    assert_eq!(pool.count("k"), 0);
    let again = match pool.acquire("k", 0, 10) {
        Ok(Step::Create(r)) => r,
        other => panic!("{:?}", other),
    };
    // a slot that was retired meanwhile has nobody to wake
    pool.register("k".to_string(), Workshop::new(), None);
    assert_eq!(pool.abandon_create(again), Ok(None));
    // and a reservation that nothing is pending for is refused
    let mut other: Pool<Workshop> = Pool::new(1);
    other.register("k".to_string(), Workshop::new(), None);
    let foreign = match other.acquire("k", 0, 10) {
        Ok(Step::Create(r)) => r,
        other => panic!("{:?}", other),
    };
    assert_eq!(pool.abandon_create(foreign), Err(PoolError::Misuse));
    assert_eq!(pool.count("k"), 0);
}
