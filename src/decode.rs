//! Per-message-type field layout of a decoded payload.

use vstd::prelude::*;
use crate::bits::{
    bits_of, payload_bits, read_signed, read_text, read_unsigned, signed_field, text_field,
    unpack, unsigned_field, PayloadBits, MAX_BITS,
};
use crate::fragment::{MessageClass, TaggedFragment};
use crate::text::{all_digits, decimal, decimal_string, digits_value, parse_digits_saturating};

verus! {

/// One decoded message. Numeric fields that a message type does not carry are empty
/// strings; `latitude` and `longitude` are in 1/600000 degree and 0 when not carried.
#[derive(Clone, Debug)]
pub struct DecodedRecord {
    pub landfall_time: String,
    pub group: String,
    pub satellite_acquisition_time: String,
    pub source: String,
    pub channel: String,
    pub raw_payload: String,
    pub message_type: u64,
    pub message_class: MessageClass,
    pub mmsi: String,
    pub latitude: i64,
    pub longitude: i64,
    pub call_sign: String,
    pub destination: String,
    pub name: String,
    pub ship_type: String,
    pub eta: String,
    pub draught: String,
    pub imo: String,
    pub course_over_ground: String,
    pub position_accuracy: String,
    pub speed_over_ground: String,
    pub navigation_status: String,
}

/// Class A position reports.
pub open spec fn is_class_a_position(t: nat) -> bool {
    t == 1 || t == 2 || t == 3
}

/// Class B position reports, standard and extended.
pub open spec fn is_class_b_position(t: nat) -> bool {
    t == 18 || t == 19
}

/// Message types whose fields are decoded.
pub open spec fn is_known_type(t: nat) -> bool {
    is_class_a_position(t) || t == 5 || is_class_b_position(t)
}

/// The decimal numeral of an unsigned field.
pub open spec fn unsigned_text(bits: Seq<bool>, off: int, len: nat) -> Seq<char> {
    decimal(unsigned_field(bits, off, len))
}

/// The message type: the first six bits.
pub open spec fn message_type_of(bits: Seq<bool>) -> nat {
    unsigned_field(bits, 0, 6)
}

pub open spec fn mmsi_of(bits: Seq<bool>) -> Seq<char> {
    if is_known_type(message_type_of(bits)) {
        unsigned_text(bits, 8, 30)
    } else {
        Seq::empty()
    }
}

pub open spec fn latitude_of(bits: Seq<bool>) -> int {
    let t = message_type_of(bits);
    if is_class_a_position(t) {
        signed_field(bits, 89, 27)
    } else if t == 18 {
        signed_field(bits, 85, 27)
    } else {
        0
    }
}

pub open spec fn longitude_of(bits: Seq<bool>) -> int {
    let t = message_type_of(bits);
    if is_class_a_position(t) {
        signed_field(bits, 61, 28)
    } else if t == 18 {
        signed_field(bits, 57, 28)
    } else {
        0
    }
}

pub open spec fn call_sign_of(bits: Seq<bool>) -> Seq<char> {
    if message_type_of(bits) == 5 {
        text_field(bits, 70, 7)
    } else {
        Seq::empty()
    }
}

pub open spec fn name_of(bits: Seq<bool>) -> Seq<char> {
    let t = message_type_of(bits);
    if t == 5 {
        text_field(bits, 112, 20)
    } else if t == 19 {
        text_field(bits, 143, 20)
    } else {
        Seq::empty()
    }
}

pub open spec fn destination_of(bits: Seq<bool>) -> Seq<char> {
    if message_type_of(bits) == 5 {
        text_field(bits, 302, 20)
    } else {
        Seq::empty()
    }
}

pub open spec fn ship_type_of(bits: Seq<bool>) -> Seq<char> {
    let t = message_type_of(bits);
    if t == 5 {
        unsigned_text(bits, 232, 8)
    } else if t == 19 {
        unsigned_text(bits, 263, 8)
    } else {
        Seq::empty()
    }
}

pub open spec fn draught_of(bits: Seq<bool>) -> Seq<char> {
    if message_type_of(bits) == 5 {
        unsigned_text(bits, 294, 8)
    } else {
        Seq::empty()
    }
}

pub open spec fn imo_of(bits: Seq<bool>) -> Seq<char> {
    if message_type_of(bits) == 5 {
        unsigned_text(bits, 40, 30)
    } else {
        Seq::empty()
    }
}

pub open spec fn course_over_ground_of(bits: Seq<bool>) -> Seq<char> {
    let t = message_type_of(bits);
    if is_class_a_position(t) {
        unsigned_text(bits, 116, 27)
    } else if is_class_b_position(t) {
        unsigned_text(bits, 112, 12)
    } else {
        Seq::empty()
    }
}

pub open spec fn position_accuracy_of(bits: Seq<bool>) -> Seq<char> {
    let t = message_type_of(bits);
    if is_class_a_position(t) {
        unsigned_text(bits, 60, 1)
    } else if is_class_b_position(t) {
        unsigned_text(bits, 56, 1)
    } else {
        Seq::empty()
    }
}

pub open spec fn speed_over_ground_of(bits: Seq<bool>) -> Seq<char> {
    let t = message_type_of(bits);
    if is_class_a_position(t) {
        unsigned_text(bits, 50, 10)
    } else if is_class_b_position(t) {
        unsigned_text(bits, 46, 10)
    } else {
        Seq::empty()
    }
}

pub open spec fn navigation_status_of(bits: Seq<bool>) -> Seq<char> {
    if is_class_a_position(message_type_of(bits)) {
        unsigned_text(bits, 38, 4)
    } else {
        Seq::empty()
    }
}

/// Seconds from the start of the year to the on-air ETA of a static report: month
/// (31-day months), day, hour and minute, the hour read at the day's offset.
pub open spec fn eta_offset(bits: Seq<bool>) -> nat {
    let month = unsigned_field(bits, 274, 4);
    let day = unsigned_field(bits, 278, 5);
    let hour = unsigned_field(bits, 278, 5);
    let minute = unsigned_field(bits, 288, 6);
    minute * 60 + hour * 3600 + day * 86400 + month * 2678400
}

/// The ETA in seconds: the acquisition time (when it is a run of digits, else 0) plus
/// the on-air offset, saturated at `u64::MAX`.
pub open spec fn eta_seconds(acquired: Seq<char>, offset: nat) -> nat {
    let base = if all_digits(acquired) { digits_value(acquired) } else { 0 };
    if base + offset < u64::MAX {
        base + offset
    } else {
        u64::MAX as nat
    }
}

pub open spec fn eta_of(bits: Seq<bool>, acquired: Seq<char>) -> Seq<char> {
    if message_type_of(bits) == 5 {
        decimal(eta_seconds(acquired, eta_offset(bits)))
    } else {
        Seq::empty()
    }
}

/// `r` is the record decoded from `payload` under the given header fields.
pub open spec fn decodes_to(
    r: DecodedRecord,
    landfall_time: Seq<char>,
    group: Seq<char>,
    acquired: Seq<char>,
    source: Seq<char>,
    channel: Seq<char>,
    payload: Seq<char>,
    class: MessageClass,
) -> bool {
    let bits = payload_bits(payload);
    &&& r.landfall_time@ == landfall_time
    &&& r.group@ == group
    &&& r.satellite_acquisition_time@ == acquired
    &&& r.source@ == source
    &&& r.channel@ == channel
    &&& r.raw_payload@ == payload
    &&& r.message_class == class
    &&& r.message_type == message_type_of(bits)
    &&& r.mmsi@ == mmsi_of(bits)
    &&& r.latitude == latitude_of(bits)
    &&& r.longitude == longitude_of(bits)
    &&& r.call_sign@ == call_sign_of(bits)
    &&& r.destination@ == destination_of(bits)
    &&& r.name@ == name_of(bits)
    &&& r.ship_type@ == ship_type_of(bits)
    &&& r.eta@ == eta_of(bits, acquired)
    &&& r.draught@ == draught_of(bits)
    &&& r.imo@ == imo_of(bits)
    &&& r.course_over_ground@ == course_over_ground_of(bits)
    &&& r.position_accuracy@ == position_accuracy_of(bits)
    &&& r.speed_over_ground@ == speed_over_ground_of(bits)
    &&& r.navigation_status@ == navigation_status_of(bits)
}

fn unsigned_string(bits: &PayloadBits, offset: usize, length: usize) -> (r: String)
    requires
        length <= 64,
        offset + length <= usize::MAX,
    ensures
        r@ == unsigned_text(bits_of(*bits), offset as int, length as nat),
{
    decimal_string(read_unsigned(bits, offset, length))
}

fn eta_string(bits: &PayloadBits, acquired: &str) -> (r: String)
    ensures
        r@ == decimal(eta_seconds(acquired@, eta_offset(bits_of(*bits)))),
{
    let month = read_unsigned(bits, 274, 4);
    let day = read_unsigned(bits, 278, 5);
    let hour = read_unsigned(bits, 278, 5);
    let minute = read_unsigned(bits, 288, 6);
    proof {
        let b = bits_of(*bits);
        crate::bits::lemma_unsigned_field_bound(b, 274, 4);
        crate::bits::lemma_unsigned_field_bound(b, 278, 5);
        crate::bits::lemma_unsigned_field_bound(b, 288, 6);
        reveal_with_fuel(crate::bits::two_pow, 7);
    }
    let offset: u64 = minute * 60 + hour * 3600 + day * 86400 + month * 2678400;
    let base: u64 = match parse_digits_saturating(acquired) {
        Some(v) => v,
        None => 0,
    };
    let eta: u64 = if base > u64::MAX - offset {
        u64::MAX
    } else {
        base + offset
    };
    decimal_string(eta)
}

/// Decodes a fragment's payload into a record: the header fields are copied, the
/// message type is read from the first six bits, and the fields of that type are
/// read at their offsets; a type without a layout leaves them at their defaults.
pub fn decode_payload(fragment: TaggedFragment) -> (r: DecodedRecord)
    requires
        6 * fragment.raw_payload@.len() <= MAX_BITS,
    ensures
        decodes_to(
            r,
            fragment.landfall_time@,
            fragment.group@,
            fragment.satellite_acquisition_time@,
            fragment.source@,
            fragment.channel@,
            fragment.raw_payload@,
            fragment.message_class,
        ),
{
    let bits = unpack(fragment.raw_payload.as_str());
    let message_type = read_unsigned(&bits, 0, 6);
    let mut r = DecodedRecord {
        landfall_time: fragment.landfall_time,
        group: fragment.group,
        satellite_acquisition_time: fragment.satellite_acquisition_time,
        source: fragment.source,
        channel: fragment.channel,
        raw_payload: fragment.raw_payload,
        message_type,
        message_class: fragment.message_class,
        mmsi: String::new(),
        latitude: 0,
        longitude: 0,
        call_sign: String::new(),
        destination: String::new(),
        name: String::new(),
        ship_type: String::new(),
        eta: String::new(),
        draught: String::new(),
        imo: String::new(),
        course_over_ground: String::new(),
        position_accuracy: String::new(),
        speed_over_ground: String::new(),
        navigation_status: String::new(),
    };
    if message_type == 1 || message_type == 2 || message_type == 3 {
        r.mmsi = unsigned_string(&bits, 8, 30);
        r.latitude = read_signed(&bits, 89, 27);
        r.longitude = read_signed(&bits, 61, 28);
        r.position_accuracy = unsigned_string(&bits, 60, 1);
        r.speed_over_ground = unsigned_string(&bits, 50, 10);
        r.course_over_ground = unsigned_string(&bits, 116, 27);
        r.navigation_status = unsigned_string(&bits, 38, 4);
    } else if message_type == 5 {
        r.mmsi = unsigned_string(&bits, 8, 30);
        r.call_sign = read_text(&bits, 70, 7);
        r.name = read_text(&bits, 112, 20);
        r.ship_type = unsigned_string(&bits, 232, 8);
        r.imo = unsigned_string(&bits, 40, 30);
        r.destination = read_text(&bits, 302, 20);
        r.eta = eta_string(&bits, r.satellite_acquisition_time.as_str());
        r.draught = unsigned_string(&bits, 294, 8);
    } else if message_type == 18 {
        r.mmsi = unsigned_string(&bits, 8, 30);
        r.longitude = read_signed(&bits, 57, 28);
        r.latitude = read_signed(&bits, 85, 27);
        r.position_accuracy = unsigned_string(&bits, 56, 1);
        r.course_over_ground = unsigned_string(&bits, 112, 12);
        r.speed_over_ground = unsigned_string(&bits, 46, 10);
    } else if message_type == 19 {
        r.mmsi = unsigned_string(&bits, 8, 30);
        r.speed_over_ground = unsigned_string(&bits, 46, 10);
        r.course_over_ground = unsigned_string(&bits, 112, 12);
        r.position_accuracy = unsigned_string(&bits, 56, 1);
        r.name = read_text(&bits, 143, 20);
        r.ship_type = unsigned_string(&bits, 263, 8);
    }
    r
}

} // verus!
