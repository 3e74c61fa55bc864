use inksy::buffer::{aligned_capacity, grown_size, next_power_of_two};

#[test]
fn next_powers_of_two() {
    assert_eq!(next_power_of_two(0), 1);
    assert_eq!(next_power_of_two(1), 1);
    assert_eq!(next_power_of_two(2), 2);
    assert_eq!(next_power_of_two(3), 4);
    assert_eq!(next_power_of_two(4), 4);
    assert_eq!(next_power_of_two(5), 8);
    assert_eq!(next_power_of_two(1000), 1024);
    assert_eq!(next_power_of_two(1 << 63), 1 << 63);
}

#[test]
fn aligned_capacities() {
    // Already aligned: kept as asked.
    assert_eq!(aligned_capacity(4, 3, 4), 3);
    assert_eq!(aligned_capacity(0, 5, 4), 5);
    assert_eq!(aligned_capacity(1, 0, 4), 0);
    assert_eq!(aligned_capacity(1, 8, 4), 8);
    // Otherwise the smallest power of two above it that is aligned.
    assert_eq!(aligned_capacity(1, 1, 4), 4);
    assert_eq!(aligned_capacity(2, 1, 4), 2);
    assert_eq!(aligned_capacity(3, 5, 4), 8);
    assert_eq!(aligned_capacity(1, 1001, 4), 1024);
    assert_eq!(aligned_capacity(6, 3, 4), 4);
    assert_eq!(aligned_capacity(7, 3, 1), 3);
}

#[test]
fn growing_buffers() {
    assert_eq!(grown_size(64, 64, 64), None);
    assert_eq!(grown_size(64, 10, 10), None);
    assert_eq!(grown_size(64, 65, 65), Some(128));
    assert_eq!(grown_size(64, 100, 30), Some(32));
    assert_eq!(grown_size(0, 1, 0), Some(1));
}
