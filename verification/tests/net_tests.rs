use azula::config::base::{PortRange, ScanOrder};
use azula::net::port::{select_step, RangeIterator};
use azula::net::strategy::{serial_ports, PortStrategy};

#[test]
fn net_tests_serial_strategy_with_ports() {
    let strategy = PortStrategy::pick(&None, Some(vec![80, 443]), ScanOrder::Serial);
    let result = strategy.order();
    assert_eq!(vec![80, 443], result)
}

#[test]
fn net_tests_random_strategy_with_ports() {
    let strategy = PortStrategy::pick(&None, Some((1..10).collect()), ScanOrder::Random);
    let mut result = strategy.order();
    let expected_range = (1..10).collect::<Vec<u16>>();
    assert_ne!(expected_range, result);

    result.sort_unstable();
    assert_eq!(expected_range, result)
}

fn drain(mut it: RangeIterator) -> Vec<u16> {
    let mut ports = Vec::new();
    while let Some(port) = it.next() {
        ports.push(port);
    }
    ports
}

#[test]
fn serial_order_of_a_thousand_ports_is_ascending() {
    let expected = (1..=1000).collect::<Vec<u16>>();
    assert_eq!(serial_ports(1, 1000), expected);
    for _ in 0..3 {
        let range = PortRange { start: 1, end: 1000 };
        let strategy = PortStrategy::pick(&Some(range), None, ScanOrder::Serial);
        assert_eq!(strategy.order(), expected);
    }
}

#[test]
fn serial_order_reaches_the_last_port() {
    assert_eq!(serial_ports(65_534, 65_535), vec![65_534, 65_535]);
    assert_eq!(serial_ports(0, 0), vec![0]);
    assert_eq!(serial_ports(1, 65_535).len(), 65_535);
}

#[test]
fn traversal_follows_its_first_offset_and_stride() {
    let it = RangeIterator::with_stride(1, 10, 0, 3).unwrap();
    assert_eq!(drain(it), vec![1, 4, 7, 10, 3, 6, 9, 2, 5, 8]);
    let it = RangeIterator::with_stride(100, 104, 2, 4).unwrap();
    assert_eq!(drain(it), vec![102, 101, 100, 104, 103]);
    let it = RangeIterator::with_stride(1, 10, 7, 1).unwrap();
    assert_eq!(drain(it), vec![8, 9, 10, 1, 2, 3, 4, 5, 6, 7]);
}

#[test]
fn traversal_collects_what_next_gives() {
    let it = RangeIterator::with_stride(20, 29, 4, 7).unwrap();
    let by_steps = drain(it);
    let it = RangeIterator::with_stride(20, 29, 4, 7).unwrap();
    assert_eq!(it.collect(), by_steps);

    let mut it = RangeIterator::with_stride(20, 29, 4, 7).unwrap();
    assert_eq!(it.next(), Some(24));
    assert_eq!(it.next(), Some(21));
    assert_eq!(it.collect(), by_steps[2..].to_vec());
}

#[test]
fn traversal_ends_after_the_last_port_and_stays_ended() {
    let mut it = RangeIterator::with_stride(5, 7, 1, 2).unwrap();
    assert_eq!(it.next(), Some(6));
    assert_eq!(it.next(), Some(5));
    assert_eq!(it.next(), Some(7));
    assert_eq!(it.next(), None);
    assert_eq!(it.next(), None);
}

#[test]
fn traversal_needs_a_stride_coprime_to_the_size() {
    assert!(RangeIterator::with_stride(1, 10, 0, 5).is_none());
    assert!(RangeIterator::with_stride(1, 10, 0, 2).is_none());
    assert!(RangeIterator::with_stride(1, 10, 0, 0).is_none());
    assert!(RangeIterator::with_stride(1, 10, 0, 9).is_some());
    assert!(RangeIterator::with_stride(1, 10, 10, 3).is_none());
    assert!(RangeIterator::with_stride(1, 10, 0, 13).is_none());
    assert!(RangeIterator::with_stride(10, 1, 0, 1).is_none());
    assert!(RangeIterator::with_stride(1, 65_536, 0, 1).is_none());
    assert!(RangeIterator::with_stride(0, 65_535, 0, 1).is_some());
}

#[test]
fn range_of_one_port_gives_that_port() {
    let it = RangeIterator::with_stride(443, 443, 0, 0).unwrap();
    assert_eq!(drain(it), vec![443]);
    for _ in 0..20 {
        assert_eq!(drain(RangeIterator::new(443, 443)), vec![443]);
    }
}

#[test]
fn small_ranges_are_covered_whatever_is_drawn() {
    for end in 1..=12u32 {
        for _ in 0..50 {
            let mut ports = drain(RangeIterator::new(1, end));
            ports.sort_unstable();
            assert_eq!(ports, (1..=end as u16).collect::<Vec<u16>>());
        }
    }
}

#[test]
fn random_range_of_eight_ports_or_more_is_never_ascending() {
    for _ in 0..200 {
        let ports = drain(RangeIterator::new(1, 8));
        assert_ne!(ports, (1..=8).collect::<Vec<u16>>());
    }
}

#[test]
fn range_up_to_the_last_port_is_covered() {
    let mut ports = drain(RangeIterator::new(65_000, 65_535));
    ports.sort_unstable();
    assert_eq!(ports, (65_000..=65_535).collect::<Vec<u16>>());
}

#[test]
fn step_is_the_first_coprime_candidate() {
    assert_eq!(select_step(10, &vec![5, 4, 3, 7]), 3);
    assert_eq!(select_step(10, &vec![7, 3]), 7);
    assert_eq!(select_step(9, &vec![3, 6, 4]), 4);
    assert_eq!(select_step(1, &vec![0]), 0);
}

#[test]
fn step_falls_back_to_the_predecessor_of_the_size() {
    assert_eq!(select_step(4, &vec![2, 2, 2]), 3);
    assert_eq!(select_step(10, &vec![]), 9);
    assert_eq!(select_step(2, &vec![0, 0]), 1);
    assert_eq!(select_step(1, &vec![]), 0);
    assert_eq!(select_step(6, &vec![2, 3, 4, 0]), 5);
}

#[test]
fn shuffled_list_keeps_every_port_as_often_as_given() {
    let given: Vec<u16> = vec![80, 443, 80, 22, 8080, 22, 22];
    for _ in 0..20 {
        let strategy = PortStrategy::pick(&None, Some(given.clone()), ScanOrder::Random);
        let mut result = strategy.order();
        result.sort_unstable();
        assert_eq!(result, vec![22, 22, 22, 80, 80, 443, 8080]);
    }
}

#[test]
fn list_is_taken_before_the_range() {
    let range = PortRange { start: 1, end: 100 };
    let strategy = PortStrategy::pick(&Some(range), Some(vec![9, 8]), ScanOrder::Serial);
    assert_eq!(strategy.order(), vec![9, 8]);
}

#[test]
fn order_is_fixed_once_picked() {
    let range = PortRange { start: 1, end: 500 };
    let strategy = PortStrategy::pick(&Some(range), None, ScanOrder::Random);
    let first = strategy.order();
    assert_eq!(strategy.order(), first);
    assert_eq!(strategy.order(), first);
}

#[test]
fn random_ranges_differ_from_run_to_run() {
    let first = drain(RangeIterator::new(1, 1000));
    let differs = (0..20).any(|_| drain(RangeIterator::new(1, 1000)) != first);
    assert!(differs);
}

#[test]
fn shuffled_lists_differ_from_run_to_run() {
    let given: Vec<u16> = (1..=200).collect();
    let first = PortStrategy::pick(&None, Some(given.clone()), ScanOrder::Random).order();
    let differs = (0..20)
        .any(|_| PortStrategy::pick(&None, Some(given.clone()), ScanOrder::Random).order() != first);
    assert!(differs);
}

#[test]
fn serial_traversal_walks_the_range_upwards() {
    assert_eq!(drain(RangeIterator::serial(1, 1000)), (1..=1000).collect::<Vec<u16>>());
    assert_eq!(drain(RangeIterator::serial(443, 443)), vec![443]);
    assert_eq!(drain(RangeIterator::serial(65_534, 65_535)), vec![65_534, 65_535]);
    assert_eq!(RangeIterator::serial(0, 65_535).collect(), (0..=65_535).collect::<Vec<u16>>());
    assert_eq!(RangeIterator::serial(7, 9).collect(), serial_ports(7, 9));
}
