use benchie::duration::{execution_times, filetime_to_duration, timeval_to_duration};
use benchie::{Duration, FileTime, ProcessTimes, TimeVal};

#[test]
fn whole_seconds_and_microseconds() {
    let d = Duration::from_secs(3);
    assert_eq!(d.as_secs(), 3);
    assert_eq!(d.subsec_nanos(), 0);
    let m = Duration::from_micros(2_500_001);
    assert_eq!(m.as_secs(), 2);
    assert_eq!(m.subsec_nanos(), 500_001_000);
    assert_eq!(m.as_nanos(), 2_500_001_000);
    assert_eq!(Duration::zero().as_nanos(), 0);
}

#[test]
fn nanoseconds_split_into_seconds() {
    let d = Duration::from_nanos(1_000_000_007).expect("fits");
    assert_eq!(d.as_secs(), 1);
    assert_eq!(d.subsec_nanos(), 7);
    let largest = (u64::MAX as u128 + 1) * 1_000_000_000 - 1;
    assert_eq!(Duration::from_nanos(largest).map(|d| d.as_secs()), Some(u64::MAX));
    assert!(Duration::from_nanos(largest + 1).is_none());
}

#[test]
fn sums_and_differences() {
    let a = Duration::from_micros(1_700_000);
    let b = Duration::from_micros(400_000);
    assert_eq!(a.checked_add(&b).map(|d| d.as_nanos()), Some(2_100_000_000));
    assert_eq!(a.checked_sub(&b).map(|d| d.as_nanos()), Some(1_300_000_000));
    assert!(b.checked_sub(&a).is_none());
    let top = Duration::from_secs(u64::MAX);
    assert!(top.checked_add(&Duration::from_secs(1)).is_none());
}

#[test]
fn timeval_converts_seconds_and_microseconds() {
    let d = timeval_to_duration(TimeVal { sec: 2, usec: 345_678 }).expect("converts");
    assert_eq!(d.as_nanos(), 2_345_678_000);
    let carried = timeval_to_duration(TimeVal { sec: 1, usec: 1_500_000 }).expect("converts");
    assert_eq!(carried.as_nanos(), 2_500_000_000);
}

#[test]
fn negative_timeval_is_refused() {
    assert!(timeval_to_duration(TimeVal { sec: -1, usec: 0 }).is_none());
    assert!(timeval_to_duration(TimeVal { sec: 0, usec: -5 }).is_none());
}

#[test]
fn filetime_counts_hundreds_of_nanoseconds() {
    let one_second = filetime_to_duration(FileTime { low: 10_000_000, high: 0 });
    assert_eq!(one_second.as_secs(), 1);
    assert_eq!(one_second.subsec_nanos(), 0);
    let high = filetime_to_duration(FileTime { low: 5, high: 1 });
    assert_eq!(high.as_nanos(), ((1u128 << 32) + 5) * 100);
    let max = filetime_to_duration(FileTime { low: u32::MAX, high: u32::MAX });
    assert_eq!(max.as_nanos(), u64::MAX as u128 * 100);
}

#[test]
fn windows_times_take_exit_less_creation() {
    let times = ProcessTimes {
        creation: FileTime { low: 1_000, high: 7 },
        exit: FileTime { low: 21_000_000, high: 7 },
        kernel: FileTime { low: 30, high: 0 },
        user: FileTime { low: 40, high: 0 },
    };
    let (user, system, real) = execution_times(times).expect("exit after creation");
    assert_eq!(user.as_nanos(), 4_000);
    assert_eq!(system.as_nanos(), 3_000);
    assert_eq!(real.as_nanos(), 2_099_900_000);
}

#[test]
fn windows_exit_before_creation_is_refused() {
    let times = ProcessTimes {
        creation: FileTime { low: 0, high: 8 },
        exit: FileTime { low: 0, high: 7 },
        kernel: FileTime { low: 0, high: 0 },
        user: FileTime { low: 0, high: 0 },
    };
    assert!(execution_times(times).is_none());
}
