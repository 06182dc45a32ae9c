use thread_counters::{
    get_average_value, get_counter_value, is_internal_name, retire_slot, AtomicCounter,
    AtomicCounterGuardSum, AvgMode, CounterRegistry, MaxMode, MinMode, SumMode,
};

#[test]
fn alloc_test() {
    let mut reg = CounterRegistry::new();
    let _sum_counter = AtomicCounter::<SumMode>::declare(&mut reg, "test_counter", false);
}

#[test]
fn sum_three_threads_inc_100() {
    let mut reg = CounterRegistry::new();
    let a = AtomicCounter::<SumMode>::declare(&mut reg, "requests", false);
    let b = AtomicCounter::<SumMode>::declare(&mut reg, "requests", false);
    let c = AtomicCounter::<SumMode>::declare(&mut reg, "requests", false);
    for _ in 0..100 {
        a.inc(&mut reg);
        b.inc(&mut reg);
        c.inc(&mut reg);
    }
    assert_eq!(get_counter_value(&mut reg, "requests"), (300, 0));
    // without reset-on-read the running total persists across reads
    assert_eq!(get_counter_value(&mut reg, "requests"), (300, 0));
}

#[test]
fn average_reset_on_read() {
    let mut reg = CounterRegistry::new();
    let lat = AtomicCounter::<AvgMode>::declare(&mut reg, "latency_ms", true);
    lat.add_value(10, &mut reg);
    lat.add_value(20, &mut reg);
    let (sum, count) = get_counter_value(&mut reg, "latency_ms");
    assert_eq!((sum, count), (30, 2));
    assert_eq!(sum / count, 15);
    // no new samples: the next read reports no data
    assert_eq!(get_counter_value(&mut reg, "latency_ms"), (0, 0));
    assert_eq!(get_average_value(&mut reg, "latency_ms"), None);
}

#[test]
fn max_two_threads() {
    let mut reg = CounterRegistry::new();
    let a = AtomicCounter::<MaxMode>::declare(&mut reg, "peak_mem", false);
    let b = AtomicCounter::<MaxMode>::declare(&mut reg, "peak_mem", false);
    a.max(50, &mut reg);
    b.max(80, &mut reg);
    a.max(60, &mut reg);
    assert_eq!(get_counter_value(&mut reg, "peak_mem"), (80, 0));
}

#[test]
fn max_registration_order_irrelevant() {
    let mut reg = CounterRegistry::new();
    let b = AtomicCounter::<MaxMode>::declare(&mut reg, "peak_mem", false);
    let a = AtomicCounter::<MaxMode>::declare(&mut reg, "peak_mem", false);
    b.max(80, &mut reg);
    a.max(50, &mut reg);
    a.max(60, &mut reg);
    assert_eq!(get_counter_value(&mut reg, "peak_mem"), (80, 0));
}

#[test]
fn average_without_samples_is_no_data() {
    let mut reg = CounterRegistry::new();
    let _bytes = AtomicCounter::<AvgMode>::declare(&mut reg, "mean_bytes", false);
    assert_eq!(get_counter_value(&mut reg, "mean_bytes"), (0, 0));
    assert_eq!(get_average_value(&mut reg, "mean_bytes"), None);
}

#[test]
fn average_with_samples() {
    let mut reg = CounterRegistry::new();
    let bytes = AtomicCounter::<AvgMode>::declare(&mut reg, "mean_bytes", false);
    bytes.add_value(6, &mut reg);
    bytes.add_value(10, &mut reg);
    bytes.add_value(2, &mut reg);
    assert_eq!(get_average_value(&mut reg, "mean_bytes"), Some((18, 3)));
}

#[test]
fn thread_death_keeps_contribution() {
    let mut reg = CounterRegistry::new();
    let a = AtomicCounter::<SumMode>::declare(&mut reg, "jobs", false);
    let b = AtomicCounter::<SumMode>::declare(&mut reg, "jobs", false);
    a.inc_by(5, &mut reg);
    b.inc_by(7, &mut reg);
    // the thread holding b terminates
    retire_slot(&mut reg, b.entry_id, b.slot_id);
    assert_eq!(get_counter_value(&mut reg, "jobs"), (12, 0));
    // the dead slot was pruned, but its value went into the accumulator
    assert_eq!(get_counter_value(&mut reg, "jobs"), (12, 0));
}

#[test]
fn sum_reset_on_read_reports_delta() {
    let mut reg = CounterRegistry::new();
    let n = AtomicCounter::<SumMode>::declare(&mut reg, "delta", true);
    n.inc_by(5, &mut reg);
    assert_eq!(get_counter_value(&mut reg, "delta"), (5, 0));
    assert_eq!(get_counter_value(&mut reg, "delta"), (0, 0));
    n.inc_by(2, &mut reg);
    assert_eq!(get_counter_value(&mut reg, "delta"), (2, 0));
}

#[test]
fn min_counter() {
    let mut reg = CounterRegistry::new();
    let m = AtomicCounter::<MinMode>::declare(&mut reg, "fastest", true);
    // a fresh slot holds 0, so before the first reset a Min counter
    // reports at most 0
    m.min(10, &mut reg);
    assert_eq!(get_counter_value(&mut reg, "fastest"), (0, 0));
    // the reset swapped the slot to the Min identity; now minima register
    m.min(10, &mut reg);
    m.min(3, &mut reg);
    m.min(9, &mut reg);
    assert_eq!(get_counter_value(&mut reg, "fastest"), (3, 0));
}

#[test]
fn min_reset_on_read_identity() {
    let mut reg = CounterRegistry::new();
    let m = AtomicCounter::<MinMode>::declare(&mut reg, "fastest", true);
    get_counter_value(&mut reg, "fastest");
    m.min(42, &mut reg);
    assert_eq!(get_counter_value(&mut reg, "fastest"), (42, 0));
    // the reset value of a Min counter is the largest representable value
    assert_eq!(get_counter_value(&mut reg, "fastest"), (i64::MAX, 0));
}

#[test]
fn unknown_name_reads_zero() {
    let mut reg = CounterRegistry::new();
    assert_eq!(get_counter_value(&mut reg, "never_declared"), (0, 0));
}

#[test]
fn sub_undoes_inc() {
    let mut reg = CounterRegistry::new();
    let n = AtomicCounter::<SumMode>::declare(&mut reg, "outstanding", false);
    n.inc_by(10, &mut reg);
    n.sub(4, &mut reg);
    assert_eq!(get_counter_value(&mut reg, "outstanding"), (6, 0));
}

#[test]
fn guard_adds_then_takes_back() {
    let mut reg = CounterRegistry::new();
    let n = AtomicCounter::<SumMode>::declare(&mut reg, "in_flight", false);
    let g = AtomicCounterGuardSum::new(&n, 5, &mut reg);
    assert_eq!(get_counter_value(&mut reg, "in_flight"), (5, 0));
    g.release(&mut reg);
    assert_eq!(get_counter_value(&mut reg, "in_flight"), (0, 0));
}

#[test]
fn counters_are_independent() {
    let mut reg = CounterRegistry::new();
    let a = AtomicCounter::<SumMode>::declare(&mut reg, "reads", false);
    let b = AtomicCounter::<SumMode>::declare(&mut reg, "writes", false);
    a.inc_by(3, &mut reg);
    b.inc_by(4, &mut reg);
    assert_eq!(get_counter_value(&mut reg, "reads"), (3, 0));
    assert_eq!(get_counter_value(&mut reg, "writes"), (4, 0));
}

#[test]
fn average_across_two_threads() {
    let mut reg = CounterRegistry::new();
    let h1 = AtomicCounter::<AvgMode>::declare(&mut reg, "chunk_bytes", false);
    let h2 = AtomicCounter::<AvgMode>::declare(&mut reg, "chunk_bytes", false);
    h1.add_value(10, &mut reg);
    h2.add_value(30, &mut reg);
    assert_eq!(get_counter_value(&mut reg, "chunk_bytes"), (40, 2));
}

#[test]
fn internal_names_are_recognised() {
    let mut reg = CounterRegistry::new();
    let _lat = AtomicCounter::<AvgMode>::declare(&mut reg, "latency_ms", false);
    assert!(is_internal_name("latency_ms$avg_count_internal"));
    assert!(!is_internal_name("latency_ms"));
    assert!(!is_internal_name(""));
}
