use sound_registry::registry::Registry;
use sound_registry::supervisor::{Supervisor, SILENCE_THRESHOLD, TICK_INTERVAL, TIME_UNIT};

const T0: u64 = 1_700_000_000_000_000_000;

fn three_sources() -> Registry<u32> {
    let mut registry = Registry::new();
    registry.create(1, "a".to_string());
    registry.create(2, "b".to_string());
    registry.create(3, "c".to_string());
    registry
}

#[test]
fn the_constants_are_one_and_three_seconds() {
    assert_eq!(TIME_UNIT, 1_000_000_000);
    assert_eq!(TICK_INTERVAL, 1_000_000_000);
    assert_eq!(SILENCE_THRESHOLD, 3_000_000_000);
}

#[test]
fn a_new_supervisor_is_not_started() {
    assert_eq!(Supervisor::new(), Supervisor::NotStarted { early_heartbeat: None });
}

#[test]
fn start_arms_at_the_given_time() {
    let mut supervisor = Supervisor::new();
    supervisor.start(T0);
    assert_eq!(supervisor, Supervisor::Armed { last_heartbeat: T0 });
}

#[test]
fn a_second_start_arms_anew() {
    let mut supervisor = Supervisor::new();
    supervisor.start(T0);
    supervisor.start(T0 + 5 * TIME_UNIT);
    assert_eq!(supervisor, Supervisor::Armed { last_heartbeat: T0 + 5 * TIME_UNIT });
    assert!(!supervisor.tick(T0 + 8 * TIME_UNIT));
    assert!(supervisor.tick(T0 + 8 * TIME_UNIT + 1));
}

#[test]
fn heartbeat_before_start_does_not_arm() {
    let mut supervisor = Supervisor::new();
    supervisor.heartbeat(T0);
    assert_eq!(supervisor, Supervisor::NotStarted { early_heartbeat: Some(T0) });
    assert!(!supervisor.tick(T0 + 100 * TIME_UNIT));
    supervisor.start(T0 + 200 * TIME_UNIT);
    assert_eq!(supervisor, Supervisor::Armed { last_heartbeat: T0 + 200 * TIME_UNIT });
}

#[test]
fn heartbeat_refreshes_the_timestamp() {
    let mut supervisor = Supervisor::new();
    supervisor.start(T0);
    supervisor.heartbeat(T0 + 2 * TIME_UNIT);
    assert_eq!(supervisor, Supervisor::Armed { last_heartbeat: T0 + 2 * TIME_UNIT });
    supervisor.heartbeat(T0 + 2 * TIME_UNIT);
    assert_eq!(supervisor, Supervisor::Armed { last_heartbeat: T0 + 2 * TIME_UNIT });
}

#[test]
fn silence_is_strictly_more_than_the_threshold() {
    let mut supervisor = Supervisor::new();
    supervisor.start(T0);
    assert!(!supervisor.tick(T0));
    assert!(!supervisor.tick(T0 + TIME_UNIT));
    assert!(!supervisor.tick(T0 + SILENCE_THRESHOLD - 1));
    assert!(!supervisor.tick(T0 + SILENCE_THRESHOLD));
    assert!(supervisor.tick(T0 + SILENCE_THRESHOLD + 1));
    assert!(supervisor.tick(T0 + 4 * TIME_UNIT));
    assert!(supervisor.tick(u64::MAX));
}

#[test]
fn a_reading_before_the_last_heartbeat_is_no_silence() {
    let mut supervisor = Supervisor::new();
    supervisor.start(T0);
    assert!(!supervisor.tick(T0 - 1));
    assert!(!supervisor.tick(0));
    supervisor.heartbeat(u64::MAX);
    assert!(!supervisor.tick(0));
    assert!(!supervisor.tick(u64::MAX));
}

#[test]
fn tick_at_the_edges_of_the_clock() {
    let mut supervisor = Supervisor::new();
    supervisor.start(0);
    assert!(!supervisor.tick(0));
    assert!(!supervisor.tick(3_000_000_000));
    assert!(supervisor.tick(3_000_000_001));
    supervisor.start(u64::MAX - 3_000_000_000);
    assert!(!supervisor.tick(u64::MAX));
}

#[test]
fn silence_expiry_empties_the_registry() {
    let mut supervisor = Supervisor::new();
    let mut registry = three_sources();
    supervisor.start(T0);
    let mut now = T0;
    for _ in 0..3 {
        now += TICK_INTERVAL;
        assert!(!supervisor.sweep(&mut registry, now));
        assert_eq!(registry.list(), "[a,b,c]");
    }
    now += TICK_INTERVAL;
    assert!(supervisor.sweep(&mut registry, now));
    assert_eq!(registry.list(), "[]");
    assert!(registry.is_empty());
}

#[test]
fn silence_expiry_does_not_depend_on_the_number_of_sources() {
    for count in [0u32, 1, 2, 50] {
        let mut supervisor = Supervisor::new();
        let mut registry: Registry<u32> = Registry::new();
        for n in 0..count {
            registry.create(n, format!("id{}", n));
        }
        supervisor.start(T0);
        assert!(supervisor.sweep(&mut registry, T0 + SILENCE_THRESHOLD + 1));
        assert_eq!(registry.len(), 0);
        assert_eq!(registry.list(), "[]");
    }
}

#[test]
fn lasting_silence_is_collected_on_every_tick() {
    let mut supervisor = Supervisor::new();
    let mut registry = three_sources();
    supervisor.start(T0);
    assert!(supervisor.sweep(&mut registry, T0 + 4 * TIME_UNIT));
    assert!(registry.is_empty());
    registry.create(9, "late".to_string());
    assert!(supervisor.sweep(&mut registry, T0 + 5 * TIME_UNIT));
    assert!(registry.is_empty());
    assert!(supervisor.sweep(&mut registry, T0 + 6 * TIME_UNIT));
    assert!(registry.is_empty());
}

#[test]
fn heartbeat_after_silence_lets_new_sources_live() {
    let mut supervisor = Supervisor::new();
    let mut registry = three_sources();
    supervisor.start(T0);
    assert!(supervisor.sweep(&mut registry, T0 + 10 * TIME_UNIT));
    supervisor.heartbeat(T0 + 10 * TIME_UNIT);
    registry.create(4, "d".to_string());
    assert!(!supervisor.sweep(&mut registry, T0 + 11 * TIME_UNIT));
    assert_eq!(registry.list(), "[d]");
}

#[test]
fn heartbeat_prevents_expiry() {
    let mut supervisor = Supervisor::new();
    let mut registry = three_sources();
    supervisor.start(T0);
    let mut now = T0;
    for tick in 0..1000u32 {
        now += TIME_UNIT / 2;
        supervisor.heartbeat(now);
        now += TIME_UNIT / 2;
        assert!(!supervisor.sweep(&mut registry, now));
        if tick == 500 {
            registry.create(4, "d".to_string());
        }
    }
    assert_eq!(registry.list(), "[a,b,c,d]");
    assert_eq!(registry.len(), 4);
}

#[test]
fn sweep_before_start_collects_nothing() {
    let supervisor = Supervisor::new();
    let mut registry = three_sources();
    assert!(!supervisor.sweep(&mut registry, u64::MAX));
    assert_eq!(registry.len(), 3);
}
