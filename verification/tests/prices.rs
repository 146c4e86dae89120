use protohackers::prices::{
    apply_message, calculate_mean_price, i32_from_be_bytes, i32_to_be_bytes, parse_message,
    Insert, Message, Query,
};

fn insert(timestamp: i32, price: i32) -> Insert {
    Insert { timestamp, price }
}

#[test]
fn signed_numbers_are_big_endian() {
    assert_eq!(i32_from_be_bytes(0, 0, 0, 0), 0);
    assert_eq!(i32_from_be_bytes(0, 0, 0x30, 0x39), 12345);
    assert_eq!(i32_from_be_bytes(0x7f, 0xff, 0xff, 0xff), i32::MAX);
    assert_eq!(i32_from_be_bytes(0x80, 0, 0, 0), i32::MIN);
    assert_eq!(i32_from_be_bytes(0xff, 0xff, 0xff, 0xff), -1);
    assert_eq!(i32_from_be_bytes(0xff, 0xff, 0xff, 0x9c), -100);
    for value in [0, 1, -1, 101, -101, 65536, -65536, i32::MAX, i32::MIN, 123456789] {
        let bytes = value.to_be_bytes();
        assert_eq!(i32_from_be_bytes(bytes[0], bytes[1], bytes[2], bytes[3]), value);
        assert_eq!(i32_to_be_bytes(value), bytes.to_vec());
    }
}

#[test]
fn insert_message() {
    let bytes = [0x49, 0x00, 0x00, 0x30, 0x39, 0x00, 0x00, 0x00, 0x65];
    assert_eq!(parse_message(&bytes), Some(Message::Insert(insert(12345, 101))));
    let bytes = [0x49, 0xff, 0xff, 0xff, 0xff, 0x80, 0x00, 0x00, 0x00];
    assert_eq!(parse_message(&bytes), Some(Message::Insert(insert(-1, i32::MIN))));
}

#[test]
fn query_message() {
    let bytes = [0x51, 0x00, 0x00, 0x03, 0xe8, 0x00, 0x01, 0x86, 0xa0];
    assert_eq!(
        parse_message(&bytes),
        Some(Message::Query(Query { min_time: 1000, max_time: 100000 }))
    );
}

#[test]
fn other_messages_are_not_understood() {
    for first in [0u8, 0x48, 0x50, 0x69, 0x71, 0xff] {
        let bytes = [first, 0, 0, 0, 1, 0, 0, 0, 2];
        assert_eq!(parse_message(&bytes), None);
    }
}

#[test]
fn mean_of_the_prices_in_the_period() {
    let mut inserts =
        vec![insert(12345, 101), insert(12346, 102), insert(12347, 100), insert(40960, 5)];
    let before = inserts.clone();
    assert_eq!(calculate_mean_price(&mut inserts, Query { min_time: 12288, max_time: 16384 }), 101);
    assert_eq!(calculate_mean_price(&mut inserts, Query { min_time: 12345, max_time: 12345 }), 101);
    assert_eq!(calculate_mean_price(&mut inserts, Query { min_time: 12346, max_time: 40960 }), 69);
    assert_eq!(inserts, before);
}

#[test]
fn mean_is_zero_without_prices() {
    let mut inserts = vec![insert(10, 7)];
    assert_eq!(calculate_mean_price(&mut inserts, Query { min_time: 11, max_time: 20 }), 0);
    assert_eq!(calculate_mean_price(&mut inserts, Query { min_time: 20, max_time: 5 }), 0);
    assert_eq!(calculate_mean_price(&mut inserts, Query { min_time: 10, max_time: 9 }), 0);
    assert_eq!(calculate_mean_price(&mut Vec::new(), Query { min_time: 0, max_time: 100 }), 0);
}

#[test]
fn mean_is_rounded_towards_zero() {
    let mut inserts = vec![insert(1, 3), insert(2, 4)];
    assert_eq!(calculate_mean_price(&mut inserts, Query { min_time: 0, max_time: 9 }), 3);
    let mut inserts = vec![insert(1, -3), insert(2, -4)];
    assert_eq!(calculate_mean_price(&mut inserts, Query { min_time: 0, max_time: 9 }), -3);
    let mut inserts = vec![insert(1, -1), insert(2, 0), insert(3, 0)];
    assert_eq!(calculate_mean_price(&mut inserts, Query { min_time: 0, max_time: 9 }), 0);
}

#[test]
fn mean_of_extreme_prices_does_not_overflow() {
    let mut inserts: Vec<Insert> = (0..1000).map(|t| insert(t, i32::MAX)).collect();
    assert_eq!(
        calculate_mean_price(&mut inserts, Query { min_time: i32::MIN, max_time: i32::MAX }),
        i32::MAX
    );
    let mut inserts: Vec<Insert> = (0..1000).map(|t| insert(-t, i32::MIN)).collect();
    assert_eq!(
        calculate_mean_price(&mut inserts, Query { min_time: i32::MIN, max_time: i32::MAX }),
        i32::MIN
    );
}

#[test]
fn messages_are_applied_in_turn() {
    let mut inserts = Vec::new();
    assert_eq!(apply_message(&mut inserts, Message::Insert(insert(12345, 101))), None);
    assert_eq!(apply_message(&mut inserts, Message::Insert(insert(12346, 102))), None);
    assert_eq!(
        apply_message(&mut inserts, Message::Query(Query { min_time: 0, max_time: 20000 })),
        Some(101)
    );
    assert_eq!(inserts, vec![insert(12345, 101), insert(12346, 102)]);
}
