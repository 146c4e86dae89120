//! A price log: a client inserts timestamped prices and asks for the mean
//! price of a period.
//!
//! A message is nine bytes: a type byte, `I` or `Q`, and two signed 32-bit
//! big-endian numbers.

use vstd::prelude::*;
use crate::wire::{be32, u32_bytes};

verus! {

/// A price at a moment.
#[derive(Debug, Clone, Copy, PartialEq, Eq)]
pub struct Insert {
    pub timestamp: i32,
    pub price: i32,
}

/// A period, both ends included.
#[derive(Debug, Clone, Copy, PartialEq, Eq)]
pub struct Query {
    pub min_time: i32,
    pub max_time: i32,
}

/// What a client may send.
#[derive(Debug, Clone, Copy, PartialEq, Eq)]
pub enum Message {
    Insert(Insert),
    Query(Query),
}

/// The number that a 32-bit pattern stands for in two's complement.
pub open spec fn signed32(bits: u32) -> i32 {
    if bits >= 0x8000_0000 {
        (bits - 0x1_0000_0000) as i32
    } else {
        bits as i32
    }
}

/// The 32-bit pattern of a number in two's complement.
pub open spec fn unsigned32(value: i32) -> u32 {
    if value < 0 {
        (value + 0x1_0000_0000) as u32
    } else {
        value as u32
    }
}

/// The four bytes of a signed 32-bit number, highest byte first.
pub open spec fn i32_bytes(value: i32) -> Seq<u8> {
    u32_bytes(unsigned32(value))
}

/// The signed number that four bytes stand for, the first being the highest.
pub open spec fn be_i32(b0: u8, b1: u8, b2: u8, b3: u8) -> i32 {
    signed32(be32(b0, b1, b2, b3))
}

/// The message that nine bytes stand for, if their first byte is the type of
/// one.
pub open spec fn message_of(bytes: Seq<u8>) -> Option<Message>
    recommends
        bytes.len() == 9,
{
    let first = be_i32(bytes[1], bytes[2], bytes[3], bytes[4]);
    let second = be_i32(bytes[5], bytes[6], bytes[7], bytes[8]);
    if bytes[0] == 0x49 {
        Some(Message::Insert(Insert { timestamp: first, price: second }))
    } else if bytes[0] == 0x51 {
        Some(Message::Query(Query { min_time: first, max_time: second }))
    } else {
        None
    }
}

/// True when the price was set within the period.
pub open spec fn within(insert: Insert, query: Query) -> bool {
    query.min_time <= insert.timestamp <= query.max_time
}

/// The sum of the prices set within the period.
pub open spec fn total(inserts: Seq<Insert>, query: Query) -> int
    decreases inserts.len(),
{
    if inserts.len() == 0 {
        0
    } else {
        total(inserts.drop_last(), query) + if within(inserts.last(), query) {
            inserts.last().price as int
        } else {
            0
        }
    }
}

/// The number of the prices set within the period.
pub open spec fn count(inserts: Seq<Insert>, query: Query) -> nat
    decreases inserts.len(),
{
    if inserts.len() == 0 {
        0
    } else {
        count(inserts.drop_last(), query) + if within(inserts.last(), query) {
            1nat
        } else {
            0nat
        }
    }
}

/// The quotient of a sum by a positive count, rounded towards zero.
pub open spec fn quotient(sum: int, count: int) -> int
    recommends
        count > 0,
{
    if sum >= 0 {
        sum / count
    } else {
        -((-sum) / count)
    }
}

/// The mean of the prices set within the period, rounded towards zero; zero
/// where there is none.
pub open spec fn mean_price(inserts: Seq<Insert>, query: Query) -> int {
    if count(inserts, query) == 0 {
        0
    } else {
        quotient(total(inserts, query), count(inserts, query) as int)
    }
}

/// The sum of some prices lies between the least and the greatest price, each
/// times their number.
pub proof fn lemma_total_is_bounded(inserts: Seq<Insert>, query: Query)
    ensures
        count(inserts, query) <= inserts.len(),
        -0x8000_0000 * count(inserts, query) <= total(inserts, query) <= 0x7fff_ffff * count(
            inserts,
            query,
        ),
    decreases inserts.len(),
{
    if inserts.len() > 0 {
        lemma_total_is_bounded(inserts.drop_last(), query);
    }
}

/// A period whose end lies before its start holds no price.
pub proof fn lemma_empty_period_has_no_price(inserts: Seq<Insert>, query: Query)
    requires
        query.min_time > query.max_time,
    ensures
        count(inserts, query) == 0,
        mean_price(inserts, query) == 0,
    decreases inserts.len(),
{
    if inserts.len() > 0 {
        lemma_empty_period_has_no_price(inserts.drop_last(), query);
    }
}

/// The mean of 32-bit prices is a 32-bit number.
pub proof fn lemma_mean_is_a_price(inserts: Seq<Insert>, query: Query)
    ensures
        -0x8000_0000 <= mean_price(inserts, query) <= 0x7fff_ffff,
{
    lemma_total_is_bounded(inserts, query);
    let n = count(inserts, query) as int;
    let sum = total(inserts, query);
    if n > 0 {
        if sum >= 0 {
            assert(sum / n <= 0x7fff_ffff) by (nonlinear_arith)
                requires
                    n > 0,
                    0 <= sum <= 0x7fff_ffff * n,
            ;
            assert(sum / n >= 0) by (nonlinear_arith)
                requires
                    n > 0,
                    0 <= sum,
            ;
        } else {
            assert((-sum) / n <= 0x8000_0000) by (nonlinear_arith)
                requires
                    n > 0,
                    0 <= -sum <= 0x8000_0000 * n,
            ;
            assert((-sum) / n >= 0) by (nonlinear_arith)
                requires
                    n > 0,
                    0 <= -sum,
            ;
        }
    }
}

/// Reads a signed 32-bit big-endian number.
pub fn i32_from_be_bytes(b0: u8, b1: u8, b2: u8, b3: u8) -> (value: i32)
    ensures
        value == be_i32(b0, b1, b2, b3),
{
    let bits: i64 = (b0 as i64) * 16777216 + (b1 as i64) * 65536 + (b2 as i64) * 256 + (b3 as i64);
    if bits >= 0x8000_0000 {
        (bits - 0x1_0000_0000) as i32
    } else {
        bits as i32
    }
}

/// A signed number is read back from its four bytes.
pub proof fn lemma_i32_round_trip(value: i32)
    ensures
        be_i32(i32_bytes(value)[0], i32_bytes(value)[1], i32_bytes(value)[2], i32_bytes(value)[3])
            == value,
{
}

/// Writes a signed 32-bit number as four bytes, highest first.
pub fn i32_to_be_bytes(value: i32) -> (bytes: Vec<u8>)
    ensures
        bytes@ == i32_bytes(value),
{
    let bits: u32 = if value < 0 {
        (value as i64 + 0x1_0000_0000) as u32
    } else {
        value as u32
    };
    crate::wire::serialize_u32(bits)
}

/// Reads a message: `I` and a timestamp and a price, or `Q` and the two ends
/// of a period. Another first byte gives no message.
pub fn parse_message(bytes: &[u8; 9]) -> (message: Option<Message>)
    ensures
        message == message_of(bytes@),
{
    let first = i32_from_be_bytes(bytes[1], bytes[2], bytes[3], bytes[4]);
    let second = i32_from_be_bytes(bytes[5], bytes[6], bytes[7], bytes[8]);
    match bytes[0] {
        0x49 => Some(Message::Insert(Insert { timestamp: first, price: second })),
        0x51 => Some(Message::Query(Query { min_time: first, max_time: second })),
        _ => None,
    }
}

/// The mean of the prices set within the period of `query`, rounded towards
/// zero; zero where no price was set within it.
pub fn calculate_mean_price(inserts: &mut Vec<Insert>, query: Query) -> (mean: i32)
    ensures
        final(inserts)@ == old(inserts)@,
        mean == mean_price(old(inserts)@, query),
{
    let mut sum: i128 = 0;
    let mut count: i128 = 0;
    let mut i: usize = 0;
    let ghost all = inserts@;
    while i < inserts.len()
        invariant
            i <= inserts.len(),
            inserts@ == all,
            sum == total(all.take(i as int), query),
            count == self::count(all.take(i as int), query),
        decreases inserts.len() - i,
    {
        proof {
            assert(all.take(i + 1).drop_last() =~= all.take(i as int));
            lemma_total_is_bounded(all.take(i as int), query);
        }
        let insert = inserts[i];
        if query.min_time <= insert.timestamp && insert.timestamp <= query.max_time {
            sum += insert.price as i128;
            count += 1;
        }
        i += 1;
    }
    proof {
        assert(all.take(all.len() as int) =~= all);
        lemma_mean_is_a_price(all, query);
        lemma_total_is_bounded(all, query);
        if query.min_time > query.max_time {
            lemma_empty_period_has_no_price(all, query);
        }
    }
    let mean: i128 = if count == 0 || query.min_time > query.max_time {
        0
    } else {
        sum / count
    };
    mean as i32
}

/// Applies a message to a client's prices: an insert is added to them and has
/// no answer; a query is answered with the mean price of its period.
pub fn apply_message(inserts: &mut Vec<Insert>, message: Message) -> (answer: Option<i32>)
    ensures
        match message {
            Message::Insert(insert) => answer is None && final(inserts)@ == old(inserts)@.push(
                insert,
            ),
            Message::Query(query) => answer == Some(mean_price(old(inserts)@, query) as i32)
                && final(inserts)@ == old(inserts)@,
        },
{
    match message {
        Message::Insert(insert) => {
            inserts.push(insert);
            None
        },
        Message::Query(query) => Some(calculate_mean_price(inserts, query)),
    }
}

} // verus!
