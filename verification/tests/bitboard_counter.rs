use search_core::types::bitboard_counter::BitboardCounter;

fn counts(counter: &BitboardCounter, times: u32) -> u64 {
    // Squares whose count is exactly `times`, found by counting down.
    let mut probe = *counter;
    for _ in 0..times {
        let before = probe.reduce();
        probe.update([u64::MAX, 0]);
        if times > 0 && before == 0 {
            return 0;
        }
    }
    let at_least = if times == 0 { u64::MAX } else { counter_at_least(counter, times) };
    at_least & !counter_at_least(counter, times + 1)
}

fn counter_at_least(counter: &BitboardCounter, times: u32) -> u64 {
    let mut probe = *counter;
    for _ in 1..times {
        probe.update([u64::MAX, 0]);
    }
    probe.reduce()
}

#[test]
fn a_new_counter_is_empty() {
    assert_eq!(BitboardCounter::new().reduce(), 0);
    assert_eq!(BitboardCounter::default().reduce(), 0);
}

#[test]
fn add_counts_up_on_the_given_squares() {
    let mut counter = BitboardCounter::new();
    counter.add(0b1010);
    assert_eq!(counter.reduce(), 0b1010);
    counter.add(0b0110);
    assert_eq!(counter.reduce(), 0b1110);
    assert_eq!(counts(&counter, 1), 0b1100);
    assert_eq!(counts(&counter, 2), 0b0010);
    assert_eq!(counts(&counter, 0), !0b1110);
}

#[test]
fn update_counts_down_then_up() {
    let mut counter = BitboardCounter::new();
    counter.add(0b0111);
    counter.add(0b0011);
    // counts: square 0 -> 2, square 1 -> 2, square 2 -> 1
    counter.update([0b0101, 0b1001]);
    // square 0: 2 - 1 + 1, square 1: 2, square 2: 0, square 3: 1
    assert_eq!(counter.reduce(), 0b1011);
    assert_eq!(counts(&counter, 2), 0b0011);
    assert_eq!(counts(&counter, 1), 0b1000);
}

#[test]
fn counting_down_stops_at_zero() {
    let mut counter = BitboardCounter::new();
    counter.update([u64::MAX, 0]);
    assert_eq!(counter.reduce(), 0);
    counter.add(1);
    assert_eq!(counter.reduce(), 1);
    // Down and up on an empty square leaves one, not zero.
    counter.update([2, 2]);
    assert_eq!(counter.reduce(), 3);
    assert_eq!(counts(&counter, 1), 3);
}

#[test]
fn counting_up_stops_at_fifteen() {
    let mut counter = BitboardCounter::new();
    for _ in 0..15 {
        counter.add(1 << 63 | 1);
    }
    assert_eq!(counts(&counter, 15), 1 << 63 | 1);
    for _ in 0..5 {
        counter.add(1);
    }
    assert_eq!(counts(&counter, 15), 1 << 63 | 1);
    for _ in 0..14 {
        counter.update([1 << 63 | 1, 0]);
    }
    assert_eq!(counts(&counter, 1), 1 << 63 | 1);
    counter.update([1, 0]);
    assert_eq!(counter.reduce(), 1 << 63);
}

#[test]
fn every_count_from_zero_to_fifteen_is_held() {
    let mut counter = BitboardCounter::new();
    for round in 0..15u32 {
        // square s is counted up in the rounds below s
        let mut delta = 0u64;
        for square in 0..16u32 {
            if round < square {
                delta |= 1 << square;
            }
        }
        counter.add(delta);
    }
    for square in 0..16u32 {
        assert_eq!(counts(&counter, square) & 0xFFFF, 1 << square);
    }
}
