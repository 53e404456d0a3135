use toy_edge_worker::limits::{
    end_slice, raised_heap_limit, start_slice, CpuMeter, Watchdog, WatchdogAction, WatchdogEvent,
    WatchdogLoop, WatchdogMsg, IDLE_WAIT_NS,
};

fn arm(
    watchdog: &mut WatchdogLoop<&'static str>,
    handle: &'static str,
    deadline: u128,
    generation: u64,
) {
    let message = WatchdogMsg::Arm { handle, deadline, generation };
    assert_eq!(watchdog.step(WatchdogEvent::Message(message)), WatchdogAction::Wait);
}

fn disarm(watchdog: &mut WatchdogLoop<&'static str>, generation: u64) {
    let message = WatchdogMsg::Disarm { generation };
    assert_eq!(watchdog.step(WatchdogEvent::Message(message)), WatchdogAction::Wait);
}

#[test]
fn watchdog_waits_for_the_deadline() {
    let mut watchdog = WatchdogLoop::new();
    assert_eq!(watchdog.timeout(0), 3_600_000_000_000);
    assert_eq!(IDLE_WAIT_NS, 3_600_000_000_000);
    arm(&mut watchdog, "a", 50, 0);
    assert_eq!(watchdog.timeout(20), 30);
    assert_eq!(watchdog.timeout(50), 0);
    assert_eq!(watchdog.timeout(80), 0);
}

#[test]
fn overdue_script_is_terminated_once() {
    let mut watchdog = WatchdogLoop::new();
    arm(&mut watchdog, "a", 50, 0);
    assert_eq!(watchdog.step(WatchdogEvent::TimedOut { now: 50 }), WatchdogAction::Terminate("a"));
    assert_eq!(watchdog.step(WatchdogEvent::TimedOut { now: 60 }), WatchdogAction::Wait);
}

#[test]
fn disarmed_script_is_not_terminated() {
    let mut watchdog = WatchdogLoop::new();
    arm(&mut watchdog, "a", 50, 7);
    disarm(&mut watchdog, 7);
    assert_eq!(watchdog.step(WatchdogEvent::TimedOut { now: 60 }), WatchdogAction::Wait);
}

#[test]
fn early_wake_keeps_the_generation() {
    let mut watchdog = WatchdogLoop::new();
    arm(&mut watchdog, "a", 50, 7);
    assert_eq!(watchdog.step(WatchdogEvent::TimedOut { now: 49 }), WatchdogAction::Wait);
    disarm(&mut watchdog, 0);
    assert_eq!(watchdog.timeout(49), 1);
    disarm(&mut watchdog, 7);
    assert_eq!(watchdog.step(WatchdogEvent::TimedOut { now: 60 }), WatchdogAction::Wait);
}

#[test]
fn stale_disarm_spares_the_next_arming() {
    let mut watchdog = WatchdogLoop::new();
    arm(&mut watchdog, "a", 50, 1);
    arm(&mut watchdog, "b", 90, 2);
    disarm(&mut watchdog, 1);
    assert_eq!(watchdog.step(WatchdogEvent::TimedOut { now: 90 }), WatchdogAction::Terminate("b"));
}

#[test]
fn scripts_of_two_threads_are_both_terminated() {
    let mut watchdog = WatchdogLoop::new();
    arm(&mut watchdog, "h1", 50, 1);
    arm(&mut watchdog, "h2", 90, 2);
    assert_eq!(watchdog.timeout(20), 30);
    assert_eq!(watchdog.step(WatchdogEvent::TimedOut { now: 55 }), WatchdogAction::Terminate("h1"));
    assert_eq!(watchdog.timeout(60), 30);
    assert_eq!(watchdog.step(WatchdogEvent::TimedOut { now: 89 }), WatchdogAction::Wait);
    assert_eq!(watchdog.step(WatchdogEvent::TimedOut { now: 90 }), WatchdogAction::Terminate("h2"));
    assert_eq!(watchdog.timeout(90), IDLE_WAIT_NS);
}

#[test]
fn earliest_deadline_comes_first() {
    let mut watchdog = WatchdogLoop::new();
    arm(&mut watchdog, "late", 90, 1);
    arm(&mut watchdog, "early", 50, 2);
    assert_eq!(watchdog.timeout(40), 10);
    // Both are overdue: one is terminated at a time.
    assert_eq!(
        watchdog.step(WatchdogEvent::TimedOut { now: 100 }),
        WatchdogAction::Terminate("early")
    );
    assert_eq!(watchdog.timeout(100), 0);
    assert_eq!(
        watchdog.step(WatchdogEvent::TimedOut { now: 100 }),
        WatchdogAction::Terminate("late")
    );
}

#[test]
fn disarming_one_script_spares_no_other() {
    let mut watchdog = WatchdogLoop::new();
    arm(&mut watchdog, "a", 50, 1);
    arm(&mut watchdog, "b", 60, 2);
    disarm(&mut watchdog, 2);
    assert_eq!(watchdog.step(WatchdogEvent::TimedOut { now: 70 }), WatchdogAction::Terminate("a"));
    assert_eq!(watchdog.step(WatchdogEvent::TimedOut { now: 70 }), WatchdogAction::Wait);
}

#[test]
fn slices_are_armed_and_disarmed() {
    let mut meter = CpuMeter::new(Some(50));
    let mut front = Watchdog::new();
    let mut watchdog = WatchdogLoop::new();
    let (generation, message) = start_slice(&meter, &mut front, "a", 1000).unwrap();
    assert_eq!(message, WatchdogMsg::Arm { handle: "a", deadline: 1050, generation: 0 });
    assert_eq!(watchdog.step(WatchdogEvent::Message(message)), WatchdogAction::Wait);
    let message = end_slice(&mut meter, &front, generation, 20);
    assert_eq!(message, WatchdogMsg::Disarm { generation: 0 });
    assert_eq!(watchdog.step(WatchdogEvent::Message(message)), WatchdogAction::Wait);
    assert_eq!(watchdog.timeout(1020), IDLE_WAIT_NS);
    assert_eq!(meter.used(), 20);

    let (generation, message) = start_slice(&meter, &mut front, "a", 2000).unwrap();
    assert_eq!(message, WatchdogMsg::Arm { handle: "a", deadline: 2030, generation: 1 });
    assert_eq!(watchdog.step(WatchdogEvent::Message(message)), WatchdogAction::Wait);
    assert_eq!(
        watchdog.step(WatchdogEvent::TimedOut { now: 2030 }),
        WatchdogAction::Terminate("a")
    );
    let message = end_slice(&mut meter, &front, generation, 31);
    assert_eq!(watchdog.step(WatchdogEvent::Message(message)), WatchdogAction::Wait);
    assert_eq!(meter.used(), 51);
}

#[test]
fn unlimited_slices_are_not_armed() {
    let meter = CpuMeter::new(None);
    let mut front = Watchdog::new();
    assert_eq!(start_slice(&meter, &mut front, "a", 5), None);
    assert_eq!(front.arm("a", 9).0, 0);
}

#[test]
fn watchdog_stops_when_disconnected() {
    let mut watchdog: WatchdogLoop<u8> = WatchdogLoop::new();
    assert_eq!(watchdog.step(WatchdogEvent::Disconnected), WatchdogAction::Stop);
}

#[test]
fn armings_have_generations_of_their_own() {
    let mut watchdog = Watchdog::new();
    let (first, message) = watchdog.arm("a", 10);
    assert_eq!(first, 0);
    assert_eq!(message, WatchdogMsg::Arm { handle: "a", deadline: 10, generation: 0 });
    let (second, _) = watchdog.arm("a", 20);
    assert_eq!(second, 1);
    assert_eq!(watchdog.disarm::<&str>(second), WatchdogMsg::Disarm { generation: 1 });
}

#[test]
fn waiting_costs_no_cpu_time() {
    let ms: u128 = 1_000_000;
    let mut meter = CpuMeter::new(Some(50 * ms));
    assert_eq!(meter.begin(1000 * ms), Some(1050 * ms));
    meter.finish(10 * ms);
    // 200 ms of waiting lie between the slices.
    assert_eq!(meter.begin(1210 * ms), Some(1250 * ms));
    meter.finish(10 * ms);
    assert_eq!(meter.used(), 20 * ms);
    // A slice of 29 ms would end before its deadline, one of 30 ms would not.
    assert_eq!(meter.begin(2000 * ms), Some(2030 * ms));
    meter.finish(100 * ms);
    assert_eq!(meter.begin(5000 * ms), Some(5000 * ms));
}

#[test]
fn unlimited_meter_counts_nothing() {
    let mut meter = CpuMeter::new(None);
    assert_eq!(meter.begin(5), None);
    meter.finish(100);
    assert_eq!(meter.used(), 0);
}

#[test]
fn heap_limit_is_raised_by_eight_mebibytes() {
    assert_eq!(raised_heap_limit(64 * 1024 * 1024), 72 * 1024 * 1024);
}
