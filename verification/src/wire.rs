//! Binary wire format of the speed-enforcement protocol.
//!
//! A frame is a type byte followed by its fields. Integers are big-endian. A
//! string is a length byte followed by that many ASCII bytes, and a list of
//! roads is a length byte followed by that many 16-bit road numbers. Decoders
//! pull bytes from an iterator and say, for an iterator that keeps the
//! iterator laws, both what they return and what is left in the iterator.

use vstd::prelude::*;
use vstd::std_specs::iter::IteratorSpec;
use vstd::utf8::is_ascii_chars;
use crate::message::{
    option_view, IAmCamera, IAmDispatcher, IAmDispatcherView, Plate, PlateView, Request,
    RequestView, Ticket, TicketView, WantHeartbeat,
};
use crate::text::{
    all_ascii, ascii_bytes, ascii_chars, is_all_ascii, lemma_ascii_is_utf8,
    lemma_ascii_text_bytes, string_from_ascii,
};

verus! {

/// The type byte of an Error frame.
pub const ERROR_FLAG: u8 = 0x10;

/// The type byte of a Plate frame.
pub const PLATE_FLAG: u8 = 0x20;

/// The type byte of a Ticket frame.
pub const TICKET_FLAG: u8 = 0x21;

/// The type byte of a WantHeartbeat frame.
pub const WANT_HEARTBEAT_FLAG: u8 = 0x40;

/// The type byte of a Heartbeat frame.
pub const HEARTBEAT_FLAG: u8 = 0x41;

/// The type byte of an IAmCamera frame.
pub const I_AM_CAMERA_FLAG: u8 = 0x80;

/// The type byte of an IAmDispatcher frame.
pub const I_AM_DISPATCHER_FLAG: u8 = 0x81;

/// The number that two bytes stand for, the first being the high one.
pub open spec fn be16(b0: u8, b1: u8) -> u16 {
    (b0 as int * 256 + b1 as int) as u16
}

/// The number that four bytes stand for, the first being the highest.
pub open spec fn be32(b0: u8, b1: u8, b2: u8, b3: u8) -> u32 {
    (b0 as int * 16777216 + b1 as int * 65536 + b2 as int * 256 + b3 as int) as u32
}

/// The two bytes of a 16-bit number, high byte first.
pub open spec fn u16_bytes(value: u16) -> Seq<u8> {
    seq![(value / 256) as u8, (value % 256) as u8]
}

/// The four bytes of a 32-bit number, highest byte first.
pub open spec fn u32_bytes(value: u32) -> Seq<u8> {
    seq![
        (value / 16777216) as u8,
        (value / 65536 % 256) as u8,
        (value / 256 % 256) as u8,
        (value % 256) as u8,
    ]
}

/// The encoding of a string: its length and its bytes, where it is ASCII and
/// at most 255 characters long.
pub open spec fn str_bytes(chars: Seq<char>) -> Option<Seq<u8>> {
    if chars.len() <= 255 && is_ascii_chars(chars) {
        Some(seq![chars.len() as u8] + ascii_bytes(chars))
    } else {
        None
    }
}

/// The Error frame that carries `msg`.
pub open spec fn error_bytes(msg: Seq<char>) -> Option<Seq<u8>> {
    match str_bytes(msg) {
        Some(text) => Some(seq![ERROR_FLAG] + text),
        None => None,
    }
}

/// The Ticket frame of `ticket`.
pub open spec fn ticket_bytes(ticket: TicketView) -> Option<Seq<u8>> {
    match str_bytes(ticket.plate) {
        Some(plate) => Some(
            seq![TICKET_FLAG] + plate + u16_bytes(ticket.road) + u16_bytes(ticket.mile1)
                + u32_bytes(ticket.timestamp1) + u16_bytes(ticket.mile2) + u32_bytes(
                ticket.timestamp2,
            ) + u16_bytes(ticket.speed),
        ),
        None => None,
    }
}

/// The Heartbeat frame.
pub open spec fn heartbeat_bytes() -> Seq<u8> {
    seq![HEARTBEAT_FLAG]
}

/// What a decoder makes of a byte sequence: the value it reads, if the bytes
/// hold one, and the bytes that it leaves unread.
pub struct Taken<T> {
    pub value: Option<T>,
    pub rest: Seq<u8>,
}

/// No value, and nothing left: the bytes ended before the value did.
pub open spec fn cut_short<T>() -> Taken<T> {
    Taken { value: None, rest: Seq::empty() }
}

/// A 16-bit number: two bytes, high byte first.
pub open spec fn take_u16(s: Seq<u8>) -> Taken<u16> {
    if s.len() >= 2 {
        Taken { value: Some(be16(s[0], s[1])), rest: s.skip(2) }
    } else {
        cut_short()
    }
}

/// A 32-bit number: four bytes, highest byte first.
pub open spec fn take_u32(s: Seq<u8>) -> Taken<u32> {
    if s.len() >= 4 {
        Taken { value: Some(be32(s[0], s[1], s[2], s[3])), rest: s.skip(4) }
    } else {
        cut_short()
    }
}

/// A string is cut short where fewer bytes follow the length byte than it
/// announces, and has no value where one of its bytes is not ASCII.
pub open spec fn take_str(s: Seq<u8>) -> Taken<Seq<char>> {
    if s.len() == 0 || s.len() < 1 + s[0] {
        cut_short()
    } else {
        let body = s.subrange(1, 1 + s[0]);
        Taken {
            value: if all_ascii(body) {
                Some(ascii_chars(body))
            } else {
                None
            },
            rest: s.skip(1 + s[0]),
        }
    }
}

/// A list of roads: a count, then that many 16-bit numbers.
pub open spec fn take_roads(s: Seq<u8>) -> Taken<Seq<u16>> {
    if s.len() == 0 || s.len() < 1 + 2 * s[0] {
        cut_short()
    } else {
        Taken {
            value: Some(Seq::new(s[0] as nat, |i: int| be16(s[1 + 2 * i], s[2 + 2 * i]))),
            rest: s.skip(1 + 2 * s[0]),
        }
    }
}

/// The payload of a Plate frame: the plate, then the timestamp.
pub open spec fn take_plate(s: Seq<u8>) -> Taken<PlateView> {
    let plate = take_str(s);
    let timestamp = take_u32(plate.rest);
    if plate.value is None {
        Taken { value: None, rest: plate.rest }
    } else if timestamp.value is None {
        Taken { value: None, rest: timestamp.rest }
    } else {
        Taken {
            value: Some(PlateView { plate: plate.value->0, timestamp: timestamp.value->0 }),
            rest: timestamp.rest,
        }
    }
}

/// The payload of a WantHeartbeat frame: the interval.
pub open spec fn take_want_heartbeat(s: Seq<u8>) -> Taken<WantHeartbeat> {
    let interval = take_u32(s);
    Taken {
        value: match interval.value {
            Some(interval) => Some(WantHeartbeat { interval }),
            None => None,
        },
        rest: interval.rest,
    }
}

/// The payload of an IAmCamera frame: road, mile and limit.
pub open spec fn take_i_am_camera(s: Seq<u8>) -> Taken<IAmCamera> {
    if s.len() >= 6 {
        Taken {
            value: Some(
                IAmCamera { road: be16(s[0], s[1]), mile: be16(s[2], s[3]), limit: be16(s[4], s[5]) },
            ),
            rest: s.skip(6),
        }
    } else {
        cut_short()
    }
}

/// The payload of an IAmDispatcher frame: the list of roads.
pub open spec fn take_i_am_dispatcher(s: Seq<u8>) -> Taken<IAmDispatcherView> {
    let roads = take_roads(s);
    Taken {
        value: match roads.value {
            Some(roads) => Some(IAmDispatcherView { roads }),
            None => None,
        },
        rest: roads.rest,
    }
}

/// The payload that follows a type byte. A byte that is not the type of a
/// client's message has no value, and nothing after it is read.
pub open spec fn take_payload(flag: u8, s: Seq<u8>) -> Taken<RequestView> {
    if flag == I_AM_CAMERA_FLAG {
        let camera = take_i_am_camera(s);
        Taken {
            value: match camera.value {
                Some(camera) => Some(RequestView::IAmCamera(camera)),
                None => None,
            },
            rest: camera.rest,
        }
    } else if flag == I_AM_DISPATCHER_FLAG {
        let dispatcher = take_i_am_dispatcher(s);
        Taken {
            value: match dispatcher.value {
                Some(dispatcher) => Some(RequestView::IAmDispatcher(dispatcher)),
                None => None,
            },
            rest: dispatcher.rest,
        }
    } else if flag == WANT_HEARTBEAT_FLAG {
        let heartbeat = take_want_heartbeat(s);
        Taken {
            value: match heartbeat.value {
                Some(heartbeat) => Some(RequestView::WantHeartbeat(heartbeat)),
                None => None,
            },
            rest: heartbeat.rest,
        }
    } else if flag == PLATE_FLAG {
        let plate = take_plate(s);
        Taken {
            value: match plate.value {
                Some(plate) => Some(RequestView::Plate(plate)),
                None => None,
            },
            rest: plate.rest,
        }
    } else {
        Taken { value: None, rest: s }
    }
}

/// A client's frame: the type byte, then the payload that it selects.
pub open spec fn take_request(s: Seq<u8>) -> Taken<RequestView> {
    if s.len() == 0 {
        cut_short()
    } else {
        take_payload(s[0], s.skip(1))
    }
}

/// A 16-bit number is read back from its two bytes, whatever follows them.
pub proof fn lemma_u16_round_trip(value: u16, rest: Seq<u8>)
    ensures
        take_u16(u16_bytes(value) + rest) == (Taken { value: Some(value), rest }),
{
    let s = u16_bytes(value) + rest;
    assert(s.skip(2) =~= rest);
}

/// A 32-bit number is read back from its four bytes, whatever follows them.
pub proof fn lemma_u32_round_trip(value: u32, rest: Seq<u8>)
    ensures
        take_u32(u32_bytes(value) + rest) == (Taken { value: Some(value), rest }),
{
    let s = u32_bytes(value) + rest;
    assert(s.skip(4) =~= rest);
}

/// A string that can be encoded is read back from its encoding, whatever
/// follows it.
pub proof fn lemma_str_round_trip(chars: Seq<char>, rest: Seq<u8>)
    requires
        str_bytes(chars) is Some,
    ensures
        take_str(str_bytes(chars)->0 + rest) == (Taken { value: Some(chars), rest }),
{
    let s = str_bytes(chars)->0 + rest;
    lemma_ascii_text_bytes(chars);
    assert(s.subrange(1, 1 + s[0]) =~= ascii_bytes(chars));
    assert(s.skip(1 + s[0]) =~= rest);
}

/// A string that was read can be encoded, and its encoding is what was read:
/// the bytes are the encoding of the string followed by what was left.
pub proof fn lemma_str_read_is_encodable(s: Seq<u8>)
    requires
        take_str(s).value is Some,
    ensures
        str_bytes(take_str(s).value->0) is Some,
        str_bytes(take_str(s).value->0)->0 + take_str(s).rest == s,
{
    let body = s.subrange(1, 1 + s[0]);
    lemma_ascii_is_utf8(body);
    assert(str_bytes(ascii_chars(body))->0 + s.skip(1 + s[0]) =~= s);
}

/// Encodes a 16-bit number.
pub fn serialize_u16(value: u16) -> (bytes: Vec<u8>)
    ensures
        bytes@ == u16_bytes(value),
{
    let mut bytes: Vec<u8> = Vec::new();
    bytes.push((value / 256) as u8);
    bytes.push((value % 256) as u8);
    bytes
}

/// Encodes a 32-bit number.
pub fn serialize_u32(value: u32) -> (bytes: Vec<u8>)
    ensures
        bytes@ == u32_bytes(value),
{
    let mut bytes: Vec<u8> = Vec::new();
    bytes.push((value / 16777216) as u8);
    bytes.push((value / 65536 % 256) as u8);
    bytes.push((value / 256 % 256) as u8);
    bytes.push((value % 256) as u8);
    bytes
}

/// Encodes a string. There is no encoding for a string that is longer than
/// 255 bytes or holds a character outside ASCII.
pub fn serialize_str(str: &str) -> (bytes: Option<Vec<u8>>)
    ensures
        option_view(bytes) == str_bytes(str@),
{
    if !str.is_ascii() {
        return None;
    }
    proof {
        lemma_ascii_text_bytes(str@);
    }
    let mut text = str.as_bytes_vec();
    let len = text.len();
    if len > 255 {
        return None;
    }
    let mut bytes: Vec<u8> = Vec::new();
    bytes.push(len as u8);
    bytes.append(&mut text);
    Some(bytes)
}

/// Encodes the Error frame that carries `msg`.
pub fn serialize_error_msg(msg: &str) -> (bytes: Option<Vec<u8>>)
    ensures
        option_view(bytes) == error_bytes(msg@),
{
    let mut bytes: Vec<u8> = Vec::new();
    bytes.push(ERROR_FLAG);
    let mut text = serialize_str(msg)?;
    bytes.append(&mut text);
    Some(bytes)
}

/// Encodes a Ticket frame. There is none where the plate cannot be encoded.
pub fn serialize_ticket(ticket: &Ticket) -> (bytes: Option<Vec<u8>>)
    ensures
        option_view(bytes) == ticket_bytes(ticket@),
{
    let mut bytes: Vec<u8> = Vec::new();
    bytes.push(TICKET_FLAG);
    let mut plate = serialize_str(ticket.plate.as_str())?;
    bytes.append(&mut plate);
    let mut road = serialize_u16(ticket.road);
    bytes.append(&mut road);
    let mut mile1 = serialize_u16(ticket.mile1);
    bytes.append(&mut mile1);
    let mut timestamp1 = serialize_u32(ticket.timestamp1);
    bytes.append(&mut timestamp1);
    let mut mile2 = serialize_u16(ticket.mile2);
    bytes.append(&mut mile2);
    let mut timestamp2 = serialize_u32(ticket.timestamp2);
    bytes.append(&mut timestamp2);
    let mut speed = serialize_u16(ticket.speed);
    bytes.append(&mut speed);
    Some(bytes)
}

/// Encodes the Heartbeat frame.
pub fn serialize_heartbeat() -> (bytes: Vec<u8>)
    ensures
        bytes@ == heartbeat_bytes(),
{
    let mut bytes: Vec<u8> = Vec::new();
    bytes.push(HEARTBEAT_FLAG);
    bytes
}

/// Reads a 16-bit number. There is none where fewer than two bytes are left.
pub fn deserialize_u16<I: Iterator<Item = u8>>(bytes: &mut I) -> (value: Option<u16>)
    ensures
        I::obeys_prophetic_iter_laws(final(bytes)) == I::obeys_prophetic_iter_laws(old(bytes)),
        I::obeys_prophetic_iter_laws(old(bytes)) ==> {
            &&& value == take_u16(I::remaining(old(bytes))).value
            &&& I::remaining(final(bytes)) == take_u16(I::remaining(old(bytes))).rest
        },
{
    let b0 = bytes.next()?;
    let b1 = bytes.next()?;
    Some((b0 as u16) * 256 + (b1 as u16))
}

/// Reads a 32-bit number. There is none where fewer than four bytes are left.
pub fn deserialize_u32<I: Iterator<Item = u8>>(bytes: &mut I) -> (value: Option<u32>)
    ensures
        I::obeys_prophetic_iter_laws(final(bytes)) == I::obeys_prophetic_iter_laws(old(bytes)),
        I::obeys_prophetic_iter_laws(old(bytes)) ==> {
            &&& value == take_u32(I::remaining(old(bytes))).value
            &&& I::remaining(final(bytes)) == take_u32(I::remaining(old(bytes))).rest
        },
{
    let b0 = bytes.next()?;
    let b1 = bytes.next()?;
    let b2 = bytes.next()?;
    let b3 = bytes.next()?;
    Some((b0 as u32) * 16777216 + (b1 as u32) * 65536 + (b2 as u32) * 256 + (b3 as u32))
}

/// Reads a string: a length byte, then that many ASCII bytes.
pub fn deserialize_str<I: Iterator<Item = u8>>(bytes: &mut I) -> (text: Option<String>)
    ensures
        I::obeys_prophetic_iter_laws(final(bytes)) == I::obeys_prophetic_iter_laws(old(bytes)),
        I::obeys_prophetic_iter_laws(old(bytes)) ==> {
            &&& option_view(text) == take_str(I::remaining(old(bytes))).value
            &&& I::remaining(final(bytes)) == take_str(I::remaining(old(bytes))).rest
        },
{
    let ghost all = I::remaining(bytes);
    let ghost lawful = I::obeys_prophetic_iter_laws(bytes);
    let len = bytes.next()?;
    let mut body: Vec<u8> = Vec::new();
    let mut i: u8 = 0;
    while i < len
        invariant
            i <= len,
            lawful == I::obeys_prophetic_iter_laws(old(bytes)),
            all == I::remaining(old(bytes)),
            I::obeys_prophetic_iter_laws(bytes) == lawful,
            lawful ==> {
                &&& all.len() >= 1 + i
                &&& all[0] == len
                &&& I::remaining(bytes) == all.skip(1 + i)
                &&& body@ == all.subrange(1, 1 + i)
            },
        decreases len - i,
    {
        let byte = bytes.next()?;
        body.push(byte);
        i += 1;
    }
    if !is_all_ascii(&body) {
        return None;
    }
    Some(string_from_ascii(body))
}

/// Reads a list of roads: a count, then that many 16-bit numbers.
pub fn deserialize_vec<I: Iterator<Item = u8>>(bytes: &mut I) -> (roads: Option<Vec<u16>>)
    ensures
        I::obeys_prophetic_iter_laws(final(bytes)) == I::obeys_prophetic_iter_laws(old(bytes)),
        I::obeys_prophetic_iter_laws(old(bytes)) ==> {
            &&& option_view(roads) == take_roads(I::remaining(old(bytes))).value
            &&& I::remaining(final(bytes)) == take_roads(I::remaining(old(bytes))).rest
        },
{
    let ghost all = I::remaining(bytes);
    let ghost lawful = I::obeys_prophetic_iter_laws(bytes);
    let len = bytes.next()?;
    let mut roads: Vec<u16> = Vec::new();
    let mut i: u8 = 0;
    while i < len
        invariant
            i <= len,
            lawful == I::obeys_prophetic_iter_laws(old(bytes)),
            all == I::remaining(old(bytes)),
            I::obeys_prophetic_iter_laws(bytes) == lawful,
            lawful ==> {
                &&& all.len() >= 1 + 2 * i
                &&& all[0] == len
                &&& I::remaining(bytes) == all.skip(1 + 2 * i)
                &&& roads@ == Seq::new(i as nat, |k: int| be16(all[1 + 2 * k], all[2 + 2 * k]))
            },
        decreases len - i,
    {
        let road = deserialize_u16(bytes)?;
        roads.push(road);
        i += 1;
    }
    Some(roads)
}

/// Reads the payload of a Plate frame.
pub fn deserialize_plate<I: Iterator<Item = u8>>(bytes: &mut I) -> (plate: Option<Plate>)
    ensures
        I::obeys_prophetic_iter_laws(final(bytes)) == I::obeys_prophetic_iter_laws(old(bytes)),
        I::obeys_prophetic_iter_laws(old(bytes)) ==> {
            &&& option_view(plate) == take_plate(I::remaining(old(bytes))).value
            &&& I::remaining(final(bytes)) == take_plate(I::remaining(old(bytes))).rest
        },
{
    let plate = Plate { plate: deserialize_str(bytes)?, timestamp: deserialize_u32(bytes)? };
    Some(plate)
}

/// Reads the payload of a WantHeartbeat frame.
pub fn deserialize_want_heartbeat<I: Iterator<Item = u8>>(bytes: &mut I) -> (want_heartbeat: Option<
    WantHeartbeat,
>)
    ensures
        I::obeys_prophetic_iter_laws(final(bytes)) == I::obeys_prophetic_iter_laws(old(bytes)),
        I::obeys_prophetic_iter_laws(old(bytes)) ==> {
            &&& want_heartbeat == take_want_heartbeat(I::remaining(old(bytes))).value
            &&& I::remaining(final(bytes)) == take_want_heartbeat(I::remaining(old(bytes))).rest
        },
{
    let want_heartbeat = WantHeartbeat { interval: deserialize_u32(bytes)? };
    Some(want_heartbeat)
}

/// Reads the payload of an IAmCamera frame.
pub fn deserialize_i_am_camera<I: Iterator<Item = u8>>(bytes: &mut I) -> (i_am_camera: Option<
    IAmCamera,
>)
    ensures
        I::obeys_prophetic_iter_laws(final(bytes)) == I::obeys_prophetic_iter_laws(old(bytes)),
        I::obeys_prophetic_iter_laws(old(bytes)) ==> {
            &&& i_am_camera == take_i_am_camera(I::remaining(old(bytes))).value
            &&& I::remaining(final(bytes)) == take_i_am_camera(I::remaining(old(bytes))).rest
        },
{
    let i_am_camera = IAmCamera {
        road: deserialize_u16(bytes)?,
        mile: deserialize_u16(bytes)?,
        limit: deserialize_u16(bytes)?,
    };
    Some(i_am_camera)
}

/// Reads the payload of an IAmDispatcher frame.
pub fn deserialize_i_am_dispatcher<I: Iterator<Item = u8>>(bytes: &mut I) -> (i_am_dispatcher:
    Option<IAmDispatcher>)
    ensures
        I::obeys_prophetic_iter_laws(final(bytes)) == I::obeys_prophetic_iter_laws(old(bytes)),
        I::obeys_prophetic_iter_laws(old(bytes)) ==> {
            &&& option_view(i_am_dispatcher) == take_i_am_dispatcher(
                I::remaining(old(bytes)),
            ).value
            &&& I::remaining(final(bytes)) == take_i_am_dispatcher(I::remaining(old(bytes))).rest
        },
{
    let i_am_dispatcher = IAmDispatcher { roads: deserialize_vec(bytes)? };
    Some(i_am_dispatcher)
}

/// Reads the payload that follows the type byte `flag`. There is no value
/// where the bytes end before the payload does, where a string is not ASCII,
/// or where `flag` is not the type of a message that a client may send.
pub fn deserialize_payload<I: Iterator<Item = u8>>(flag: u8, bytes: &mut I) -> (request: Option<
    Request,
>)
    ensures
        I::obeys_prophetic_iter_laws(final(bytes)) == I::obeys_prophetic_iter_laws(old(bytes)),
        I::obeys_prophetic_iter_laws(old(bytes)) ==> {
            &&& option_view(request) == take_payload(flag, I::remaining(old(bytes))).value
            &&& I::remaining(final(bytes)) == take_payload(flag, I::remaining(old(bytes))).rest
        },
{
    match flag {
        I_AM_CAMERA_FLAG => match deserialize_i_am_camera(bytes) {
            Some(camera) => Some(Request::IAmCamera(camera)),
            None => None,
        },
        I_AM_DISPATCHER_FLAG => match deserialize_i_am_dispatcher(bytes) {
            Some(dispatcher) => Some(Request::IAmDispatcher(dispatcher)),
            None => None,
        },
        WANT_HEARTBEAT_FLAG => match deserialize_want_heartbeat(bytes) {
            Some(heartbeat) => Some(Request::WantHeartbeat(heartbeat)),
            None => None,
        },
        PLATE_FLAG => match deserialize_plate(bytes) {
            Some(plate) => Some(Request::Plate(plate)),
            None => None,
        },
        _ => None,
    }
}

/// Reads one frame of a client: the type byte, then its payload. There is no
/// value where the bytes end before the frame does, or where the payload has
/// none.
pub fn deserialize_request<I: Iterator<Item = u8>>(bytes: &mut I) -> (request: Option<Request>)
    ensures
        I::obeys_prophetic_iter_laws(final(bytes)) == I::obeys_prophetic_iter_laws(old(bytes)),
        I::obeys_prophetic_iter_laws(old(bytes)) ==> {
            &&& option_view(request) == take_request(I::remaining(old(bytes))).value
            &&& I::remaining(final(bytes)) == take_request(I::remaining(old(bytes))).rest
        },
{
    let flag = bytes.next()?;
    deserialize_payload(flag, bytes)
}

} // verus!
