use zup_rtfm::dispatch::{dispatcher_entry, spawn_entry, Channel, Dispatcher};
use zup_rtfm::export::{
    assert_local_send, assert_send, assert_sync, critical, lock, logical2hw, run, run_enter,
    run_exit, sgi, unlock, Priority, Saved, ICC,
};
use zup_rtfm::mutex::{Exclusive, Mutex, Proxy};
use zup_rtfm::time::Instant;
use zup_rtfm::local::{is_local, Local};
use zup_rtfm::rt::{irq, Interrupt, Route};
use zup_rtfm::sched::Core;
use zup_rtfm::gic::{class_of, Class, Target, ICCIAR, ICD};

#[test]
fn spawn_into_full_queue_returns_input() {
    // one task with a single slot
    let mut channel: Channel<u32> = Channel::new(&vec![1]).unwrap();
    assert_eq!(channel.spawn(0, 0), Ok(()));
    assert_eq!(channel.spawn(0, 1), Err(1));
    assert_eq!(channel.dispatch(), Some((0, 0)));
    assert_eq!(channel.dispatch(), None);
    assert_eq!(channel.spawn(0, 2), Ok(()));
    assert_eq!(channel.dispatch(), Some((0, 2)));
}

#[test]
fn dispatch_keeps_spawn_order_across_tasks() {
    // task 0 takes a number, task 1 is spawned with a dummy payload
    let mut channel: Channel<u32> = Channel::new(&vec![2, 1]).unwrap();
    assert_eq!(channel.spawn(0, 1), Ok(()));
    assert_eq!(channel.spawn(1, 0), Ok(()));
    assert_eq!(channel.spawn(0, 2), Ok(()));
    assert_eq!(channel.dispatch(), Some((0, 1)));
    assert_eq!(channel.dispatch(), Some((1, 0)));
    assert_eq!(channel.dispatch(), Some((0, 2)));
    assert_eq!(channel.dispatch(), None);
}

#[test]
fn slots_are_reused_after_dispatch() {
    let mut channel: Channel<u64> = Channel::new(&vec![3]).unwrap();
    for round in 0..100u64 {
        assert_eq!(channel.spawn(0, round), Ok(()));
        assert_eq!(channel.spawn(0, round + 1000), Ok(()));
        assert_eq!(channel.dispatch(), Some((0, round)));
        assert_eq!(channel.dispatch(), Some((0, round + 1000)));
    }
    assert_eq!(channel.spawn(0, 7), Ok(()));
    assert_eq!(channel.spawn(0, 8), Ok(()));
    assert_eq!(channel.spawn(0, 9), Ok(()));
    assert_eq!(channel.spawn(0, 10), Err(10));
    assert_eq!(channel.tasks(), 1);
}

#[test]
fn channel_rejects_unfit_capacities() {
    assert!(Channel::<u8>::new(&vec![0]).is_none());
    assert!(Channel::<u8>::new(&vec![200, 56]).is_none());
    assert!(Channel::<u8>::new(&vec![200, 55]).is_some());
    assert!(Channel::<u8>::new(&vec![255]).is_some());
    assert!(Channel::<u8>::new(&vec![]).is_some());
}

#[test]
fn full_capacity_channel_holds_255_messages() {
    let mut channel: Channel<u16> = Channel::new(&vec![255]).unwrap();
    for i in 0..255u16 {
        assert_eq!(channel.spawn(0, i), Ok(()));
    }
    assert_eq!(channel.spawn(0, 999), Err(999));
    for i in 0..255u16 {
        assert_eq!(channel.dispatch(), Some((0, i)));
    }
    assert_eq!(channel.dispatch(), None);
}

#[test]
fn hardware_priority_encoding() {
    assert_eq!(logical2hw(1), 248);
    assert_eq!(logical2hw(2), 240);
    assert_eq!(logical2hw(31), 8);
    assert_eq!(logical2hw(32), 0);
    assert_eq!(logical2hw(0), 0);
}

#[test]
fn lock_below_ceiling_raises_mask() {
    let mut icc = ICC::with_mask(255);
    let mut priority = Priority::new(1);
    let saved = lock(&mut icc, &mut priority, 2);
    assert_eq!(saved, Some(Saved { priority: 1, mask: 255 }));
    assert_eq!(priority.get(), 2);
    assert_eq!(icc.get_iccpmr(), logical2hw(3));
    assert_eq!(icc.get_iccpmr(), 232);
    unlock(&mut icc, &mut priority, saved);
    // the mask that was found is back
    assert_eq!(priority.get(), 1);
    assert_eq!(icc.get_iccpmr(), 255);
}

#[test]
fn lock_at_ceiling_changes_nothing() {
    let mut icc = ICC::with_mask(240);
    let mut priority = Priority::new(2);
    let saved = lock(&mut icc, &mut priority, 2);
    assert_eq!(saved, None);
    assert_eq!(priority.get(), 2);
    assert_eq!(icc.get_iccpmr(), 240);
    unlock(&mut icc, &mut priority, saved);
    assert_eq!(priority.get(), 2);
    assert_eq!(icc.get_iccpmr(), 240);
}

#[test]
fn nested_locks_restore_in_turn() {
    let mut icc = ICC::with_mask(251);
    let mut priority = Priority::new(1);
    let outer = lock(&mut icc, &mut priority, 3);
    assert_eq!(icc.get_iccpmr(), logical2hw(4));
    let inner = lock(&mut icc, &mut priority, 5);
    assert_eq!(inner, Some(Saved { priority: 3, mask: logical2hw(4) }));
    assert_eq!(icc.get_iccpmr(), logical2hw(6));
    let again = lock(&mut icc, &mut priority, 4);
    assert_eq!(again, None);
    unlock(&mut icc, &mut priority, again);
    assert_eq!(icc.get_iccpmr(), logical2hw(6));
    unlock(&mut icc, &mut priority, inner);
    assert_eq!(priority.get(), 3);
    assert_eq!(icc.get_iccpmr(), logical2hw(4));
    unlock(&mut icc, &mut priority, outer);
    assert_eq!(priority.get(), 1);
    assert_eq!(icc.get_iccpmr(), 251);
}

#[test]
fn handler_frame_raises_and_restores_the_mask() {
    // a dispatcher of the lowest level that found the mask at 248
    let mut icc = ICC::with_mask(248);
    let found = run_enter(&mut icc, 1);
    assert_eq!(found, 248);
    assert_eq!(icc.get_iccpmr(), logical2hw(2));
    assert_eq!(icc.get_iccpmr(), 240);
    run_exit(&mut icc, found);
    assert_eq!(icc.get_iccpmr(), 248);

    let mut icc = ICC::with_mask(255);
    let mut calls = 0;
    run(&mut icc, 3, || calls += 1);
    assert_eq!(calls, 1);
    assert_eq!(icc.get_iccpmr(), 255);
    let found = run_enter(&mut icc, 31);
    assert_eq!(icc.get_iccpmr(), 0);
    run_exit(&mut icc, found);
    assert_eq!(icc.get_iccpmr(), 255);
}

#[test]
fn sgi_register_words() {
    assert_eq!(ICD::icdsgir(Target::Loopback, 3), 0x0200_0003);
    assert_eq!(ICD::icdsgir(Target::Broadcast, 15), 0x0100_000f);
    assert_eq!(ICD::icdsgir(Target::Unicast(1), 0), 0x0002_0000);
    assert_eq!(ICD::icdsgir(Target::Unicast(9), 17), 0x0002_0001);
    assert_eq!(sgi(5, None), 0x0200_0005);
    assert_eq!(sgi(5, Some(0)), 0x0001_0005);
    assert_eq!(ICD::unmask(65), (2, 2));
    assert_eq!(ICD::pend(31), (0, 0x8000_0000));
}

#[test]
fn acknowledge_fields() {
    let ack = ICCIAR::from_bits((5 << 10) | 1023);
    assert_eq!(ack.bits(), 0x17ff);
    assert_eq!(ack.ackintid(), 1023);
    assert_eq!(ack.cpuid(), 5);
    let ack = ICCIAR::from_bits(0xffff_e042);
    assert_eq!(ack.ackintid(), 66);
    assert_eq!(ack.cpuid(), 0);
}

#[test]
fn interrupt_classes() {
    assert_eq!(class_of(0), Class::Sgi);
    assert_eq!(class_of(15), Class::Sgi);
    assert_eq!(class_of(16), Class::Ppi);
    assert_eq!(class_of(31), Class::Ppi);
    assert_eq!(class_of(32), Class::Spi);
    assert_eq!(class_of(1019), Class::Spi);
    assert_eq!(class_of(1020), Class::Special);
    assert_eq!(class_of(1023), Class::Special);
}

#[test]
fn drain_delivers_everything_in_order() {
    let mut channel: Channel<char> = Channel::new(&vec![2, 2]).unwrap();
    assert_eq!(channel.spawn(1, 'a'), Ok(()));
    assert_eq!(channel.spawn(0, 'b'), Ok(()));
    assert_eq!(channel.spawn(1, 'c'), Ok(()));
    assert_eq!(channel.spawn(1, 'd'), Err('d'));
    assert_eq!(channel.drain(), vec![(1, 'a'), (0, 'b'), (1, 'c')]);
    assert_eq!(channel.dispatch(), None);
    assert!(channel.drain().is_empty());
    assert_eq!(channel.spawn(1, 'd'), Ok(()));
    assert_eq!(channel.drain(), vec![(1, 'd')]);
}

#[test]
fn ping_pong_between_two_cores() {
    // what core 1 sends to `ping` on core 0, and what core 0 sends to `pong` on core 1
    let mut to_ping: Channel<u32> = Channel::new(&vec![1]).unwrap();
    let mut to_pong: Channel<u32> = Channel::new(&vec![1]).unwrap();
    // `init` on core 1 has a route of its own to `pong`
    let mut from_init: Channel<u32> = Channel::new(&vec![1]).unwrap();
    let mut pings = vec![];
    let mut pongs = vec![];
    assert_eq!(from_init.spawn(0, 0), Ok(()));
    let (_, mut x) = from_init.dispatch().unwrap();
    loop {
        pongs.push(x);
        if x >= 5 {
            break;
        }
        assert_eq!(to_ping.spawn(0, x + 1), Ok(()));
        let (_, y) = to_ping.dispatch().unwrap();
        pings.push(y);
        if y >= 5 {
            break;
        }
        assert_eq!(to_pong.spawn(0, y + 1), Ok(()));
        x = to_pong.dispatch().unwrap().1;
    }
    assert_eq!(pings, vec![1, 3, 5]);
    assert_eq!(pongs, vec![0, 2, 4]);
}

#[test]
fn ceiling_lock_trace() {
    // the resource is shared by the priorities 1 and 2: its ceiling is 2
    let mut icc = ICC::with_mask(logical2hw(2));
    let mut priority = Priority::new(1);
    let mut shared = 0u32;
    let saved = lock(&mut icc, &mut priority, 2);
    shared += 1;
    // the dispatcher of priority 2 is shut out, that of priority 3 is not
    assert!(logical2hw(2 + 1) >= icc.get_iccpmr());
    assert!(logical2hw(3 + 1) < icc.get_iccpmr());
    assert_eq!(shared, 1);
    unlock(&mut icc, &mut priority, saved);
    assert_eq!(icc.get_iccpmr(), logical2hw(2));
    assert!(logical2hw(2 + 1) < icc.get_iccpmr());
    shared += 1;
    assert_eq!(shared, 2);
}

#[test]
fn interrupt_entry_routes() {
    assert_eq!(irq(ICCIAR::from_bits(1023)), Route::Spurious);
    assert_eq!(irq(ICCIAR::from_bits(0)), Route::Handler(Interrupt::SG(0)));
    assert_eq!(irq(ICCIAR::from_bits((3 << 10) | 15)), Route::Handler(Interrupt::SG(15)));
    assert_eq!(irq(ICCIAR::from_bits(65)), Route::Handler(Interrupt::IpiCh1));
    assert_eq!(irq(ICCIAR::from_bits(66)), Route::Handler(Interrupt::IpiCh2));
    assert_eq!(irq(ICCIAR::from_bits(16)), Route::Default);
    assert_eq!(irq(ICCIAR::from_bits(1022)), Route::Default);
    assert!(!Route::Spurious.ends_interrupt());
    assert!(!Route::Spurious.reported());
    assert!(Route::Handler(Interrupt::SG(3)).ends_interrupt());
    assert!(!Route::Handler(Interrupt::IpiCh1).reported());
    assert!(Route::Default.ends_interrupt());
    assert!(Route::Default.reported());
}

#[test]
fn dispatcher_drains_every_sender_and_tracks_pending() {
    let from_core0: Channel<u32> = Channel::new(&vec![2, 1]).unwrap();
    let from_core1: Channel<u32> = Channel::new(&vec![1, 1]).unwrap();
    let mut dispatcher = Dispatcher::new(vec![from_core0, from_core1]).unwrap();
    assert!(!dispatcher.pended);
    assert!(dispatcher.run().is_empty());
    assert!(!dispatcher.pended);
    assert_eq!(dispatcher.spawn(1, 0, 10), Ok(()));
    assert!(dispatcher.pended);
    assert_eq!(dispatcher.spawn(0, 0, 20), Ok(()));
    assert_eq!(dispatcher.spawn(0, 1, 30), Ok(()));
    assert_eq!(dispatcher.spawn(1, 0, 40), Err(40));
    assert_eq!(dispatcher.spawn(0, 0, 50), Ok(()));
    assert_eq!(dispatcher.spawn(0, 0, 60), Err(60));
    assert!(dispatcher.pended);
    assert_eq!(dispatcher.run(), vec![(0, 0, 20), (0, 1, 30), (0, 0, 50), (1, 0, 10)]);
    assert!(!dispatcher.pended);
    assert!(dispatcher.run().is_empty());
    assert_eq!(dispatcher.spawn(1, 0, 40), Ok(()));
    assert_eq!(dispatcher.run(), vec![(1, 0, 40)]);
}

#[test]
fn failed_spawn_leaves_interrupt_unpended() {
    let only: Channel<u8> = Channel::new(&vec![1]).unwrap();
    let mut dispatcher = Dispatcher::new(vec![only]).unwrap();
    assert_eq!(dispatcher.spawn(0, 0, 1), Ok(()));
    assert_eq!(dispatcher.run(), vec![(0, 0, 1)]);
    assert_eq!(dispatcher.spawn(0, 0, 2), Ok(()));
    assert_eq!(dispatcher.spawn(0, 0, 3), Err(3));
    assert!(dispatcher.pended);
    assert_eq!(dispatcher.run(), vec![(0, 0, 2)]);
    assert!(!dispatcher.pended);
}

#[test]
fn critical_section_runs_the_function() {
    let mut icc = ICC::with_mask(255);
    let mut priority = Priority::new(1);
    let (shared, before) = critical(&mut icc, &mut priority, 4, 41u32, |x| (x + 1, x));
    assert_eq!(shared, 42);
    assert_eq!(before, 41);
    assert_eq!(priority.get(), 1);
    assert_eq!(icc.get_iccpmr(), 255);
    let mut priority = Priority::new(4);
    let mut icc = ICC::with_mask(99);
    let (shared, _) = critical(&mut icc, &mut priority, 4, shared, |x| (x * 2, ()));
    assert_eq!(shared, 84);
    assert_eq!(icc.get_iccpmr(), 99);
}

#[test]
fn slot_goes_through_its_states() {
    let mut channel: Channel<&str> = Channel::new(&vec![2]).unwrap();
    // idle -> reserved
    assert_eq!(channel.reserve(0), Some(0));
    assert_eq!(channel.reserve(0), Some(1));
    assert_eq!(channel.reserve(0), None);
    // nothing waits while the slots are only reserved
    assert_eq!(channel.take(), None);
    // reserved -> pending, in the order of the publications
    assert_eq!(channel.publish(0, 1, "second slot"), Ok(()));
    assert_eq!(channel.publish(0, 0, "first slot"), Ok(()));
    // a slot that is not reserved takes no message
    assert_eq!(channel.publish(0, 0, "again"), Err("again"));
    assert_eq!(channel.publish(0, 2, "no such slot"), Err("no such slot"));
    assert_eq!(channel.publish(1, 0, "no such task"), Err("no such task"));
    // pending -> running
    assert_eq!(channel.take(), Some((0, 1, "second slot")));
    // a running slot is not free yet
    assert_eq!(channel.reserve(0), None);
    assert!(!channel.release(0, 0));
    assert!(!channel.release(0, 7));
    assert!(!channel.release(3, 0));
    // running -> idle
    assert!(channel.release(0, 1));
    assert!(!channel.release(0, 1));
    assert_eq!(channel.reserve(0), Some(1));
    assert_eq!(channel.take(), Some((0, 0, "first slot")));
    assert!(channel.release(0, 0));
    assert_eq!(channel.take(), None);
    assert_eq!(channel.publish(0, 1, "third"), Ok(()));
    assert_eq!(channel.dispatch(), Some((0, "third")));
    assert_eq!(channel.spawn(0, "a"), Ok(()));
    assert_eq!(channel.spawn(0, "b"), Ok(()));
    assert_eq!(channel.spawn(0, "c"), Err("c"));
    assert_eq!(channel.drain(), vec![(0, "a"), (0, "b")]);
}

#[test]
fn reserved_slot_counts_against_capacity() {
    let mut channel: Channel<u8> = Channel::new(&vec![1]).unwrap();
    assert_eq!(channel.reserve(0), Some(0));
    assert_eq!(channel.spawn(0, 1), Err(1));
    assert_eq!(channel.publish(0, 0, 2), Ok(()));
    assert_eq!(channel.spawn(0, 3), Err(3));
    assert_eq!(channel.dispatch(), Some((0, 2)));
    assert_eq!(channel.spawn(0, 3), Ok(()));
}

#[test]
fn spawn_entry_locks_and_raises_the_interrupt() {
    let to_self: Channel<u32> = Channel::new(&vec![1]).unwrap();
    let mut local = Dispatcher::new(vec![to_self]).unwrap();
    let mut icc = ICC::with_mask(255);
    let mut priority = Priority::new(2);
    // both queues are contended up to priority 4
    let word = spawn_entry(&mut local, &mut icc, &mut priority, Some(4), Some(4), 0, 0, 5, 0, 77);
    assert_eq!(word, Ok(ICD::icdsgir(Target::Loopback, 5)));
    assert_eq!(word, Ok(0x0200_0005));
    assert!(local.pended);
    assert_eq!(priority.get(), 2);
    assert_eq!(icc.get_iccpmr(), 255);
    // the single slot is taken
    let again = spawn_entry(&mut local, &mut icc, &mut priority, Some(4), Some(4), 0, 0, 5, 0, 78);
    assert_eq!(again, Err(78));
    assert_eq!(local.run(), vec![(0, 0, 77)]);

    // core 1 spawns on core 0, from `init`: no lock, a unicast interrupt
    let from_core0: Channel<u32> = Channel::new(&vec![1]).unwrap();
    let from_core1: Channel<u32> = Channel::new(&vec![1]).unwrap();
    let mut remote = Dispatcher::new(vec![from_core0, from_core1]).unwrap();
    let mut icc = ICC::with_mask(255);
    let mut priority = Priority::new(0);
    let word = spawn_entry(&mut remote, &mut icc, &mut priority, None, None, 1, 0, 3, 0, 9);
    assert_eq!(word, Ok(0x0001_0003));
    assert_eq!(icc.get_iccpmr(), 255);
    assert_eq!(remote.run(), vec![(1, 0, 9)]);
}

#[test]
fn dispatcher_entry_delivers_and_restores_the_mask() {
    let only: Channel<u8> = Channel::new(&vec![2]).unwrap();
    let mut dispatcher = Dispatcher::new(vec![only]).unwrap();
    assert_eq!(dispatcher.spawn(0, 0, 4), Ok(()));
    assert_eq!(dispatcher.spawn(0, 0, 5), Ok(()));
    let mut icc = ICC::with_mask(logical2hw(2));
    assert_eq!(dispatcher_entry(&mut dispatcher, &mut icc, 2), vec![(0, 0, 4), (0, 0, 5)]);
    assert_eq!(icc.get_iccpmr(), logical2hw(2));
    assert!(!dispatcher.pended);
    // the lowest level restores what it found, too
    let mut icc = ICC::with_mask(248);
    assert!(dispatcher_entry(&mut dispatcher, &mut icc, 1).is_empty());
    assert_eq!(icc.get_iccpmr(), 248);
}

#[test]
fn nested_preemption_on_one_core() {
    let mut core = Core::new(ICC::with_mask(255));
    let mut trace = vec![];
    // `init` pends the handler of priority 1
    assert!(core.enter(1));
    assert_eq!(core.icc.get_iccpmr(), logical2hw(2));
    trace.push("A");
    // it pends the handler of priority 2, which preempts at once
    assert!(core.enter(2));
    assert_eq!(core.current(), 2);
    assert_eq!(core.icc.get_iccpmr(), logical2hw(3));
    // a handler of the same or a lower priority has to wait
    assert!(!core.enter(2));
    assert!(!core.enter(1));
    trace.push("SG1");
    assert_eq!(core.leave(), Some(2));
    assert_eq!(core.current(), 1);
    assert_eq!(core.icc.get_iccpmr(), logical2hw(2));
    trace.push("B");
    assert_eq!(core.leave(), Some(1));
    assert_eq!(core.current(), 0);
    assert_eq!(core.icc.get_iccpmr(), 255);
    assert_eq!(core.leave(), None);
    assert_eq!(core.icc.get_iccpmr(), 255);
    assert_eq!(trace, vec!["A", "SG1", "B"]);
    assert!(!core.enter(0));
    assert!(!core.enter(32));
}

#[test]
fn ceiling_lock_holds_back_the_contender_only() {
    let mut core = Core::new(ICC::with_mask(255));
    let mut shared = 0u32;
    let mut trace = vec![];
    assert!(core.enter(1));
    let mut priority = Priority::new(1);
    trace.push("A".to_string());
    // the resource is shared with priority 2
    let saved = lock(&mut core.icc, &mut priority, 2);
    shared += 1;
    // priority 2 is shut out while the lock is held
    assert!(!core.enter(2));
    trace.push(format!("B - SHARED = {}", shared));
    // priority 3 is not
    assert!(core.enter(3));
    trace.push("C".to_string());
    assert_eq!(core.leave(), Some(3));
    assert_eq!(core.icc.get_iccpmr(), logical2hw(3));
    unlock(&mut core.icc, &mut priority, saved);
    assert_eq!(core.icc.get_iccpmr(), logical2hw(2));
    // now the contender runs
    assert!(core.enter(2));
    shared += 1;
    trace.push(format!("D - SHARED = {}", shared));
    assert_eq!(core.leave(), Some(2));
    trace.push("E".to_string());
    assert_eq!(core.leave(), Some(1));
    assert_eq!(core.icc.get_iccpmr(), 255);
    assert_eq!(trace, vec!["A", "B - SHARED = 1", "C", "D - SHARED = 2", "E"]);
}

#[test]
fn peripherals_are_taken_once() {
    let mut taken = false;
    assert!(ICD::take(&mut taken).is_some());
    assert!(taken);
    assert!(ICD::take(&mut taken).is_none());
    let mut taken = false;
    assert_eq!(ICC::take(&mut taken, 7).map(|icc| icc.get_iccpmr()), Some(7));
    assert!(ICC::take(&mut taken, 7).is_none());
}

#[test]
fn local_data_is_pinned_below_the_boundary() {
    assert!(is_local(0));
    assert!(is_local(0x2_ffff));
    assert!(!is_local(0x3_0000));
    let local = Local::pin(5u32, 0x2_fffc);
    assert_eq!(local.borrow(|x| *x + 1), 6);
    let (local, old) = local.borrow_mut(|x| (x * 2, x));
    assert_eq!(old, 5);
    assert_eq!(local.borrow(|x| *x), 10);
}

#[test]
fn marker_assertions_accept_plain_data() {
    assert_send::<u32>();
    assert_sync::<(u8, u16)>();
    assert_local_send::<Vec<u64>>();
}

#[test]
fn exclusive_data_is_locked_for_free() {
    let data = Exclusive(vec![1u8, 2]);
    let (data, len) = data.lock(|mut v| {
        v.push(3);
        let len = v.len();
        (v, len)
    });
    assert_eq!(len, 3);
    assert_eq!(data.0, vec![1, 2, 3]);
    let (data, first) = data.lock(|v| {
        let first = v[0];
        (v, first)
    });
    assert_eq!(first, 1);
    assert_eq!(data.0.len(), 3);
}

#[test]
fn instants_subtract_to_durations() {
    let early = Instant::from_cycles(-5);
    let late = Instant::from_cycles(37);
    assert_eq!((late - early).as_cycles(), 42);
    assert_eq!((late - late).as_cycles(), 0);
    assert_eq!((Instant::from_cycles(i32::MAX) - Instant::from_cycles(0)).as_cycles(), 2147483647);
}

#[test]
fn proxy_locks_at_its_ceiling() {
    assert!(Proxy::new(0u32, ICC::with_mask(255), Priority::new(1), 32).is_none());
    let proxy = Proxy::new(10u32, ICC::with_mask(248), Priority::new(1), 3).unwrap();
    let (proxy, seen) = proxy.lock(|x| (x + 5, x));
    assert_eq!(seen, 10);
    let (proxy, seen) = proxy.lock(|x| (x * 2, x));
    assert_eq!(seen, 15);
    let (data, icc, priority) = proxy.release();
    assert_eq!(data, 30);
    assert_eq!(icc.get_iccpmr(), 248);
    assert_eq!(priority.get(), 1);
}
