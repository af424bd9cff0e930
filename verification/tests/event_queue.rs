use scx_simulator::event_queue::{event_seed, tiebreaker, timer_seed, Event, EventKind, EventQueue};
use scx_simulator::types::{CpuId, Pid};

fn tick(cpu: u32) -> EventKind {
    EventKind::Tick { cpu: CpuId(cpu) }
}

fn timer(slot: u8) -> EventKind {
    EventKind::TimerFired { cpu: CpuId(0), slot }
}

fn drain(queue: &mut EventQueue) -> Vec<Event> {
    let mut out: Vec<Event> = Vec::new();
    loop {
        match queue.pop() {
            Some(e) => out.push(e),
            None => return out,
        }
    }
}

#[test]
fn seeds_are_spread() {
    assert_eq!(event_seed(0), 0xdeadbeef);
    assert_eq!(event_seed(1), 0x9e3779b9 + 0xdeadbeef);
    assert_eq!(timer_seed(0), 0xa5a5_51c3);
    assert_eq!(timer_seed(2), 0xd1b54a32d192ed03_u64.wrapping_mul(2).wrapping_add(0xa5a5_51c3));
}

#[test]
fn tiebreakers_are_numbers_or_draws() {
    assert_eq!(tiebreaker(5, true, 99), 5);
    assert_eq!(tiebreaker(5, false, 1), 0x1_0000_0005);
    assert_eq!(tiebreaker(0x1_0000_0007, false, 2), 0x2_0000_0007);
}

#[test]
fn events_leave_in_order_of_time() {
    for fixed in [true, false] {
        let mut queue = EventQueue::new(7, fixed);
        assert_eq!(queue.peek_time(), None);
        queue.push(30, tick(0));
        queue.push(10, tick(1));
        queue.push(20, EventKind::TaskWake { pid: Pid(3), waker: None, cpu: CpuId(0) });
        assert_eq!(queue.count(), 3);
        assert_eq!(queue.peek_time(), Some(10));
        let times: Vec<u64> = drain(&mut queue).iter().map(|e| e.time_ns).collect();
        assert_eq!(times, vec![10, 20, 30]);
        assert_eq!(queue.count(), 3);
    }
}

#[test]
fn fixed_priority_keeps_insertion_order() {
    let mut queue = EventQueue::new(42, true);
    for cpu in 0..20 {
        queue.push(100, tick(cpu));
    }
    let out = drain(&mut queue);
    for (i, e) in out.iter().enumerate() {
        assert_eq!(e.kind, tick(i as u32));
        assert_eq!(e.seq, i as u64);
    }
}

fn shuffled(seed: u32) -> Vec<EventKind> {
    let mut queue = EventQueue::new(seed, false);
    for cpu in 0..64 {
        queue.push(100, tick(cpu));
    }
    drain(&mut queue).iter().map(|e| e.kind).collect()
}

#[test]
fn ties_are_shuffled_by_the_seed() {
    let in_order: Vec<EventKind> = (0..64).map(tick).collect();
    assert_ne!(shuffled(42), in_order);
    assert_ne!(shuffled(42), shuffled(43));
    assert_eq!(shuffled(42), shuffled(42));
}

#[test]
fn random_ties_carry_their_number() {
    let mut queue = EventQueue::new(9, false);
    for cpu in 0..8 {
        queue.push(5, tick(cpu));
    }
    for e in drain(&mut queue) {
        match e.kind {
            EventKind::Tick { cpu } => assert_eq!(e.seq & 0xFFFF_FFFF, cpu.0 as u64),
            _ => unreachable!(),
        }
    }
}

#[test]
fn targeted_interleave_takes_the_earliest_timer() {
    let mut queue = EventQueue::new(1, true);
    queue.push(10, timer(0));
    queue.push(15, tick(0));
    queue.push(40, timer(2));
    queue.push(30, timer(1));
    queue.push(900, timer(3));
    let e = queue.pop_targeted_timer_interleave(100).unwrap();
    assert_eq!((e.time_ns, e.kind), (30, timer(1)));
    let e = queue.pop_targeted_timer_interleave(100).unwrap();
    assert_eq!((e.time_ns, e.kind), (40, timer(2)));
    assert_eq!(queue.pop_targeted_timer_interleave(100), None);
    let rest: Vec<u64> = drain(&mut queue).iter().map(|e| e.time_ns).collect();
    assert_eq!(rest, vec![10, 15, 900]);
}

#[test]
fn stochastic_interleave_takes_only_early_timers() {
    let mut queue = EventQueue::new(1, true);
    queue.push(10, timer(0));
    queue.push(20, timer(1));
    queue.push(30, timer(2));
    queue.push(999, timer(3));
    let first = queue.pop_stochastic_timer_interleave(100, 1).unwrap();
    let second = queue.pop_stochastic_timer_interleave(100, 0).unwrap();
    let mut slots = vec![first.kind, second.kind];
    if slots[0] == timer(2) {
        slots.swap(0, 1);
    }
    assert_eq!(slots, vec![timer(1), timer(2)]);
    assert_eq!(queue.pop_stochastic_timer_interleave(100, 1), None);
    assert_eq!(queue.peek_time(), Some(10));
}

#[test]
fn stochastic_interleave_is_gated() {
    let mut taken = 0;
    for seed in 0..200 {
        let mut queue = EventQueue::new(seed, true);
        queue.push(20, timer(1));
        if queue.pop_stochastic_timer_interleave(100, 4).is_some() {
            taken += 1;
        } else {
            assert_eq!(queue.peek_time(), Some(20));
        }
    }
    assert!(taken > 10 && taken < 120, "{taken} of 200");
}

#[test]
fn draws_decide_which_timer_runs_early() {
    let filled = || {
        let mut queue = EventQueue::new(1, true);
        queue.push(40, timer(2));
        queue.push(10, timer(0));
        queue.push(30, timer(1));
        queue.push(900, timer(3));
        queue
    };
    let taken = |one_in: u32, gate: u32, pick: u32| {
        let mut queue = filled();
        let e = queue.pop_timer_with_draws(100, one_in, gate, pick);
        let left = drain(&mut queue).len();
        (e.map(|e| e.kind), left)
    };
    assert_eq!(taken(4, 8, 0), (Some(timer(1)), 3));
    assert_eq!(taken(4, 8, 1), (Some(timer(2)), 3));
    assert_eq!(taken(4, 8, 7), (Some(timer(2)), 3));
    assert_eq!(taken(4, 9, 0), (None, 4));
    assert_eq!(taken(1, 9, 2), (Some(timer(1)), 3));
    assert_eq!(taken(0, 9, 3), (Some(timer(2)), 3));
    let mut empty = EventQueue::new(1, true);
    assert_eq!(empty.pop_timer_with_draws(100, 1, 0, 5), None);
}

#[test]
fn fixed_priority_sorts_stably() {
    let mut queue = EventQueue::new(3, true);
    for (i, t) in [30, 10, 30, 20, 10, 20].iter().enumerate() {
        queue.push(*t, tick(i as u32));
    }
    let out: Vec<(u64, EventKind)> =
        drain(&mut queue).iter().map(|e| (e.time_ns, e.kind)).collect();
    let expected = vec![
        (10, tick(1)),
        (10, tick(4)),
        (20, tick(3)),
        (20, tick(5)),
        (30, tick(0)),
        (30, tick(2)),
    ];
    assert_eq!(out, expected);
    assert_eq!(queue.pop(), None);
}

#[test]
fn ties_leave_by_tiebreaker() {
    let mut queue = EventQueue::new(77, false);
    for cpu in 0..32 {
        queue.push(5, tick(cpu));
    }
    let out = drain(&mut queue);
    for pair in 0..out.len() - 1 {
        assert!(out[pair].seq < out[pair + 1].seq);
    }
}

#[test]
fn numbers_drawn_ahead_keep_their_order() {
    for fixed in [true, false] {
        let mut plain = EventQueue::new(11, fixed);
        let mut ahead = EventQueue::new(11, fixed);
        ahead.supply(5);
        for cpu in 0..12 {
            plain.push(5, tick(cpu));
            ahead.push(5, tick(cpu));
            if cpu == 7 {
                ahead.supply(3);
            }
        }
        assert_eq!(drain(&mut plain), drain(&mut ahead));
    }
}

#[test]
fn the_seed_decides_the_order_of_ties() {
    let order = |seed: u32| {
        let mut queue = EventQueue::new(seed, false);
        for cpu in 0..32 {
            queue.push(5, tick(cpu));
        }
        drain(&mut queue)
    };
    assert_eq!(order(1), order(1));
    assert_ne!(order(1), order(2));
}

#[test]
fn targeted_interleave_breaks_ties_by_tiebreaker() {
    let mut queue = EventQueue::new(5, false);
    for slot in 1..20 {
        queue.push(30, timer(slot));
    }
    queue.push(30, tick(0));
    let mut taken: Vec<Event> = Vec::new();
    while let Some(e) = queue.pop_targeted_timer_interleave(100) {
        taken.push(e);
    }
    assert_eq!(taken.len(), 19);
    for pair in 0..taken.len() - 1 {
        assert!(taken[pair].seq < taken[pair + 1].seq);
    }
    for e in &taken {
        match e.kind {
            EventKind::TimerFired { slot, .. } => {
                assert_eq!(e.seq & 0xFFFF_FFFF, slot as u64 - 1)
            }
            _ => unreachable!(),
        }
    }
    assert_eq!(drain(&mut queue).len(), 1);
}
