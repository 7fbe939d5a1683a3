use cpumon::errors::ReduceError;
use cpumon::linux;
use cpumon::macos;
use cpumon::windows;

fn linux_state(user: u64, nice: u64, system: u64, idle: u64) -> linux::State {
    linux::State {
        user,
        nice,
        system,
        idle,
        iowait: 0,
        irq: 0,
        softirq: 0,
        steal: 0,
        guest: 0,
        guest_nice: 0,
    }
}

#[test]
fn linux_reduction_example() {
    let prev = linux_state(100, 0, 200, 9500);
    let next = linux_state(150, 0, 250, 9600);
    let d = linux::reduce(&prev, &next).unwrap();
    assert_eq!(d.user, 50);
    assert_eq!(d.nice, 0);
    assert_eq!(d.system, 50);
    assert_eq!(d.idle, 100);
    assert_eq!(d.total, 200);
    let idle_fraction = d.idle as f64 / d.total as f64;
    assert_eq!(idle_fraction, 0.50);
    assert_eq!(format!("idle: {:5.02}%", idle_fraction * 100.0), "idle: 50.00%");
}

#[test]
fn linux_fractions_partition_the_interval() {
    let prev = linux_state(10, 20, 30, 40);
    let next = linux_state(15, 27, 41, 56);
    let d = linux::reduce(&prev, &next).unwrap();
    let sum = d.user as u128 + d.nice as u128 + d.system as u128 + d.idle as u128
        + d.iowait as u128 + d.irq as u128 + d.softirq as u128 + d.steal as u128 + d.guest as u128
        + d.guest_nice as u128;
    assert_eq!(sum, d.total);
    assert!(d.idle as u128 <= d.total);
}

#[test]
fn linux_zero_interval_is_no_data() {
    let s = linux_state(100, 0, 200, 9500);
    assert_eq!(linux::reduce(&s, &s), Err(ReduceError::DegenerateInterval));
}

#[test]
fn linux_counter_regression_is_reported() {
    let prev = linux_state(100, 0, 200, 9500);
    let next = linux_state(99, 0, 250, 9600);
    assert_eq!(linux::reduce(&prev, &next), Err(ReduceError::CounterRegression));
}

#[test]
fn linux_all_idle_interval_is_fully_idle() {
    let prev = linux_state(100, 0, 200, 9500);
    let next = linux_state(100, 0, 200, 9700);
    let d = linux::reduce(&prev, &next).unwrap();
    assert_eq!(d.idle as u128, d.total);
    assert_eq!(d.idle as f64 / d.total as f64, 1.0);
}

#[test]
fn macos_sums_buckets_across_processors() {
    // Two processors, buckets in the order user, system, idle, nice.
    let info: Vec<u64> = vec![1, 2, 3, 4, 10, 20, 30, 40];
    let st = macos::from_cpu_loads(&info).unwrap();
    assert_eq!(st.user, 11);
    assert_eq!(st.system, 22);
    assert_eq!(st.idle, 33);
    assert_eq!(st.nice, 44);
}

#[test]
fn macos_empty_load_array_is_all_zero() {
    let info: Vec<u64> = vec![];
    let st = macos::from_cpu_loads(&info).unwrap();
    assert_eq!(st.user, 0);
    assert_eq!(st.nice, 0);
}

#[test]
fn macos_rejects_ragged_load_array() {
    let info: Vec<u64> = vec![1, 2, 3, 4, 10];
    assert_eq!(
        macos::from_cpu_loads(&info),
        Err(cpumon::errors::SourceError::MalformedData)
    );
}

#[test]
fn macos_rejects_bucket_sum_overflow() {
    let info: Vec<u64> = vec![u64::MAX, 0, 0, 0, 1, 0, 0, 0];
    assert_eq!(
        macos::from_cpu_loads(&info),
        Err(cpumon::errors::SourceError::MalformedData)
    );
}

#[test]
fn macos_reduction_and_partition() {
    let prev = macos::State { user: 100, system: 50, idle: 800, nice: 10 };
    let next = macos::State { user: 130, system: 70, idle: 940, nice: 20 };
    let d = macos::reduce(&prev, &next).unwrap();
    assert_eq!(d.user, 30);
    assert_eq!(d.system, 20);
    assert_eq!(d.idle, 140);
    assert_eq!(d.nice, 10);
    assert_eq!(d.total, 200);
    let sum = d.user as u128 + d.system as u128 + d.idle as u128 + d.nice as u128;
    assert_eq!(sum, d.total);
    assert_eq!(d.idle as f64 / d.total as f64, 0.70);
}

#[test]
fn macos_zero_interval_is_no_data() {
    let s = macos::State { user: 1, system: 2, idle: 3, nice: 4 };
    assert_eq!(macos::reduce(&s, &s), Err(ReduceError::DegenerateInterval));
}

#[test]
fn macos_counter_regression_is_reported() {
    let prev = macos::State { user: 10, system: 2, idle: 3, nice: 4 };
    let next = macos::State { user: 9, system: 5, idle: 6, nice: 7 };
    assert_eq!(macos::reduce(&prev, &next), Err(ReduceError::CounterRegression));
}

#[test]
fn macos_all_idle_interval_is_fully_idle() {
    let prev = macos::State { user: 10, system: 2, idle: 300, nice: 4 };
    let next = macos::State { user: 10, system: 2, idle: 450, nice: 4 };
    let d = macos::reduce(&prev, &next).unwrap();
    assert_eq!(d.idle as u128, d.total);
    assert_eq!(d.idle as f64 / d.total as f64, 1.0);
}

#[test]
fn windows_assembles_ticks_from_halves() {
    assert_eq!(windows::ticks_from_parts(2, 1), 0x1_0000_0002);
    assert_eq!(windows::ticks_from_parts(0xFFFF_FFFF, 0xFFFF_FFFF), u64::MAX);
    assert_eq!(windows::ticks_from_parts(7, 0), 7);
}

#[test]
fn windows_kernel_time_includes_idle_time() {
    // Idle advanced by 100 inside a kernel advance of 120; user adds 80.
    // The total counts kernel time once: 80 + 120, not 80 + 120 + 100.
    let prev = windows::State { idle: 1000, kernel: 2000, user: 3000 };
    let next = windows::State { idle: 1100, kernel: 2120, user: 3080 };
    let d = windows::reduce(&prev, &next).unwrap();
    assert_eq!(d.idle, 100);
    assert_eq!(d.kernel, 120);
    assert_eq!(d.user, 80);
    assert_eq!(d.total, 200);
    assert_eq!(d.idle as f64 / d.total as f64, 0.50);
}

#[test]
fn windows_fractions_partition_the_interval() {
    let prev = windows::State { idle: 1000, kernel: 2000, user: 3000 };
    let next = windows::State { idle: 1100, kernel: 2120, user: 3080 };
    let d = windows::reduce(&prev, &next).unwrap();
    let sum = d.user as u128 + (d.kernel - d.idle) as u128 + d.idle as u128;
    assert_eq!(sum, d.total);
    assert!(d.idle as u128 <= d.total);
}

#[test]
fn windows_zero_interval_is_no_data() {
    let s = windows::State { idle: 1, kernel: 2, user: 3 };
    assert_eq!(windows::reduce(&s, &s), Err(ReduceError::DegenerateInterval));
}

#[test]
fn windows_counter_regression_is_reported() {
    let prev = windows::State { idle: 100, kernel: 200, user: 300 };
    let next = windows::State { idle: 99, kernel: 250, user: 350 };
    assert_eq!(windows::reduce(&prev, &next), Err(ReduceError::CounterRegression));
}

#[test]
fn windows_idle_outrunning_kernel_is_a_regression() {
    // The idle counter advanced by more than the kernel counter that
    // contains it: the deltas are inconsistent.
    let prev = windows::State { idle: 100, kernel: 200, user: 300 };
    let next = windows::State { idle: 150, kernel: 210, user: 300 };
    assert_eq!(windows::reduce(&prev, &next), Err(ReduceError::CounterRegression));
}

#[test]
fn windows_all_idle_interval_is_fully_idle() {
    let prev = windows::State { idle: 100, kernel: 200, user: 300 };
    let next = windows::State { idle: 180, kernel: 280, user: 300 };
    let d = windows::reduce(&prev, &next).unwrap();
    assert_eq!(d.idle as u128, d.total);
    assert_eq!(d.idle as f64 / d.total as f64, 1.0);
}
