use ana::cpuset::{format_cpuset, parse_cpuset, parse_run_str, CpusetAllocator, Error};

#[test]
fn cpuset_allocate_takes_the_lowest_cpus() {
    let mut a = CpusetAllocator::with_cpus(8);
    assert_eq!(a.available(), 8);
    assert_eq!(a.allocate(1), Ok(vec![(0, 0)]));
    assert_eq!(a.allocate(3), Ok(vec![(1, 3)]));
    assert_eq!(a.available(), 4);
    assert_eq!(a.allocate(5), Err(Error::CpuNotEnough));
    assert_eq!(a.available(), 4);
    assert_eq!(a.allocate(0), Ok(vec![]));
}

#[test]
fn cpuset_release_merges_runs() {
    let mut a = CpusetAllocator::with_cpus(8);
    let first = a.allocate(1).unwrap();
    let second = a.allocate(3).unwrap();
    let third = a.allocate(1).unwrap();
    let fourth = a.allocate(1).unwrap();
    assert_eq!(third, vec![(4, 4)]);
    assert_eq!(fourth, vec![(5, 5)]);
    assert_eq!(a.release(&first), Ok(()));
    assert_eq!(a.release(&third), Ok(()));
    assert_eq!(a.available(), 4);
    // Runs now: 0, 4, 6-7; taking three crosses them in order.
    assert_eq!(a.allocate(3), Ok(vec![(0, 0), (4, 4), (6, 6)]));
    assert_eq!(a.release(&vec![(0, 0), (4, 4), (6, 6)]), Ok(()));
    assert_eq!(a.release(&second), Ok(()));
    assert_eq!(a.release(&fourth), Ok(()));
    assert_eq!(a.available(), 8);
    assert_eq!(a.allocate(8), Ok(vec![(0, 7)]));
}

#[test]
fn cpuset_allocate_then_release_restores() {
    let mut a = CpusetAllocator::with_cpus(16);
    let x = a.allocate(5).unwrap();
    let y = a.allocate(4).unwrap();
    assert_eq!(a.release(&x), Ok(()));
    let z = a.allocate(7).unwrap();
    assert_eq!(z, vec![(0, 4), (9, 10)]);
    assert_eq!(a.release(&z), Ok(()));
    assert_eq!(a.release(&y), Ok(()));
    assert_eq!(a.allocate(16), Ok(vec![(0, 15)]));
}

#[test]
fn cpuset_release_stops_at_an_invalid_run() {
    let mut a = CpusetAllocator::with_cpus(4);
    let taken = a.allocate(4).unwrap();
    assert_eq!(taken, vec![(0, 3)]);
    assert_eq!(a.release(&vec![(0, 0), (3, 2), (1, 1)]), Err(Error::InvalidCpuset));
    assert_eq!(a.available(), 1);
    assert_eq!(a.release(&vec![(2, 9)]), Err(Error::InvalidCpuset));
    assert_eq!(a.allocate(1), Ok(vec![(0, 0)]));
}

#[test]
fn cpuset_new_has_every_cpu() {
    let mut a = CpusetAllocator::new();
    let n = a.available();
    assert!(n >= 1);
    assert_eq!(a.allocate(n), Ok(vec![(0, n - 1)]));
}

#[test]
fn cpuset_file_text() {
    assert_eq!(format_cpuset(&[(0, 3), (5, 5), (7, 9)]), "0-3,5,7-9");
    assert_eq!(format_cpuset(&[(0, 0)]), "0");
    assert_eq!(format_cpuset(&[]), "");
    assert_eq!(parse_cpuset("0-3,5,7-9\n"), Some(vec![(0, 3), (5, 5), (7, 9)]));
    assert_eq!(parse_cpuset("1-2-3"), Some(vec![(1, 2)]));
    assert_eq!(parse_cpuset(""), None);
    assert_eq!(parse_cpuset("0, 1"), None);
    assert_eq!(parse_cpuset("3-"), None);
    assert_eq!(parse_run_str("+4"), Some((4, 4)));
    assert_eq!(parse_run_str("-"), None);
}

#[test]
fn cpuset_file_text_round_trip() {
    let runs = vec![(0u32, 1u32), (3, 3), (10, 4000000000)];
    assert_eq!(parse_cpuset(&format_cpuset(&runs)), Some(runs));
}

#[test]
fn cpuset_allocate_leaves_the_rest_available() {
    let mut a = CpusetAllocator::with_cpus(4);
    assert_eq!(a.allocate(1), Ok(vec![(0, 0)]));
    assert_eq!(a.available(), 3);
    assert_eq!(a.allocate(4), Err(Error::CpuNotEnough));
    assert_eq!(a.available(), 3);
    assert_eq!(a.allocate(3), Ok(vec![(1, 3)]));
    assert_eq!(a.available(), 0);
    assert_eq!(a.release(&vec![(1, 3)]), Ok(()));
    assert_eq!(a.release(&vec![(0, 0)]), Ok(()));
    assert_eq!(a.available(), 4);
    assert_eq!(a.allocate(4), Ok(vec![(0, 3)]));
}

#[test]
fn cpuset_union_merges_touching_runs() {
    let mut a = CpusetAllocator::with_cpus(4);
    assert_eq!(a.allocate(4), Ok(vec![(0, 3)]));
    a.union((0, 0));
    a.union((3, 3));
    assert_eq!(a.available(), 2);
    a.union((1, 2));
    assert_eq!(a.available(), 4);
    assert_eq!(a.allocate(4), Ok(vec![(0, 3)]));
}
