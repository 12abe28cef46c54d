use ais_stream::bits::{read_signed, read_text, read_unsigned, unpack};
use ais_stream::decode::{decode_payload, DecodedRecord};
use ais_stream::fragment::{MessageClass, TaggedFragment};
use ais_stream::text::{decimal_string, parse_digits_saturating, readable};

const CLASS_A: &str = "15M67FC000G?ufbE`FepT@3n00Sa";
const STATIC_FIRST: &str = "55?MbV02;H;s<HtKR20EHE:0@T4@Dn2222222216L961O5Gf0NSQEp6ClRp8";
const STATIC_SECOND: &str = "88888888880";
const CLASS_B: &str = "B52K>;h00Fc>jpUlNV@ikwpUoP06";
const CLASS_B_EXTENDED: &str = "C39Lg000Np000000002BT000V:304T::l:0000000000BP000000";

fn armor(bits: &[bool]) -> String {
    let mut out = String::new();
    for chunk in bits.chunks(6) {
        let mut v: u32 = 0;
        for k in 0..6 {
            v = v * 2 + if k < chunk.len() && chunk[k] { 1 } else { 0 };
        }
        let code = if v < 40 { v + 48 } else { v + 56 };
        out.push(char::from_u32(code).unwrap());
    }
    out
}

fn to_bits(value: u64, width: usize) -> Vec<bool> {
    (0..width).map(|k| (value >> (width - 1 - k)) & 1 == 1).collect()
}

fn fragment(payload: &str, acquired: &str) -> TaggedFragment {
    TaggedFragment {
        landfall_time: "1577836805".to_string(),
        group: String::new(),
        satellite_acquisition_time: acquired.to_string(),
        source: "sat_7".to_string(),
        channel: "B".to_string(),
        raw_payload: payload.to_string(),
        message_class: MessageClass::Singleline,
    }
}

#[test]
fn message_type_is_first_character_value() {
    let alphabet: Vec<char> = (48u8..=87).chain(96u8..=119).map(|b| b as char).collect();
    for (expected, c) in alphabet.iter().enumerate() {
        let payload = format!("{}000000", c);
        let bits = unpack(&payload);
        assert_eq!(read_unsigned(&bits, 0, 6), expected as u64, "char {}", c);
    }
}

#[test]
fn unpack_expands_six_bits_per_character() {
    let bits = unpack("w0");
    assert_eq!(read_unsigned(&bits, 0, 6), 63);
    assert_eq!(read_unsigned(&bits, 6, 6), 0);
    assert_eq!(read_unsigned(&bits, 0, 12), 63 * 64);
    let bits = unpack("1");
    assert_eq!(read_unsigned(&bits, 5, 1), 1);
    assert_eq!(read_unsigned(&bits, 4, 1), 0);
}

#[test]
fn read_unsigned_past_end_reads_zero() {
    let bits = unpack("w");
    assert_eq!(read_unsigned(&bits, 3, 6), 0b111000);
    assert_eq!(read_unsigned(&bits, 100, 30), 0);
    let empty = unpack("");
    assert_eq!(read_unsigned(&empty, 0, 6), 0);
}

#[test]
fn read_signed_round_trips() {
    for width in [1usize, 2, 12, 27, 28, 63, 64] {
        let half: i128 = 1i128 << (width - 1);
        for v in [-half, -half + 1, -1, 0, 1, half - 1] {
            if v < -half || v >= half {
                continue;
            }
            let mask: u128 = (1u128 << width) - 1;
            let raw = ((v as u128) & mask) as u64;
            let payload = armor(&to_bits(raw, width));
            let bits = unpack(&payload);
            assert_eq!(read_signed(&bits, 0, width) as i128, v, "width {} value {}", width, v);
        }
    }
}

#[test]
fn read_signed_full_width() {
    let bits = unpack(&armor(&to_bits(u64::MAX, 64)));
    assert_eq!(read_signed(&bits, 0, 64), -1);
    let bits = unpack(&armor(&to_bits(1u64 << 63, 64)));
    assert_eq!(read_signed(&bits, 0, 64), i64::MIN);
    let bits = unpack(&armor(&to_bits(i64::MAX as u64, 64)));
    assert_eq!(read_signed(&bits, 0, 64), i64::MAX);
    assert_eq!(read_signed(&bits, 200, 64), 0);
}

#[test]
fn read_signed_class_a_coordinates() {
    let bits = unpack(CLASS_A);
    assert_eq!(read_signed(&bits, 89, 27), 22681271);
    assert_eq!(read_signed(&bits, 61, 28), -73404971);
}

#[test]
fn read_text_stops_at_zero_and_trims() {
    let mut bits = Vec::new();
    for c in "AB C  ".chars() {
        let v = if (c as u32) >= 64 { c as u32 - 64 } else { c as u32 };
        bits.extend(to_bits(v as u64, 6));
    }
    bits.extend(to_bits(0, 6));
    bits.extend(to_bits(4, 6));
    let payload = armor(&bits);
    let unpacked = unpack(&payload);
    assert_eq!(read_text(&unpacked, 0, 8), "AB C");
    assert_eq!(read_text(&unpacked, 0, 2), "AB");
    assert_eq!(read_text(&unpacked, 0, 0), "");
}

#[test]
fn read_text_trim_is_idempotent() {
    let first = unpack(&format!("{}{}", STATIC_FIRST, STATIC_SECOND));
    let name = read_text(&first, 112, 20);
    assert_eq!(name, "EVER DIADEM");
    assert_eq!(name.trim_end(), name);
    let mut bits = Vec::new();
    for c in name.chars() {
        let v = if (c as u32) >= 64 { c as u32 - 64 } else { c as u32 };
        bits.extend(to_bits(v as u64, 6));
    }
    let again = unpack(&armor(&bits));
    assert_eq!(read_text(&again, 0, 20), name);
}

#[test]
fn decode_class_a_position() {
    let r: DecodedRecord = decode_payload(fragment(CLASS_A, "1577836799"));
    assert_eq!(r.message_type, 1);
    assert_eq!(r.mmsi, "366053209");
    assert_eq!(r.latitude, 22681271);
    assert_eq!(r.longitude, -73404971);
    assert_eq!(r.position_accuracy, "0");
    assert_eq!(r.speed_over_ground, "0");
    assert_eq!(r.course_over_ground, "71860347");
    assert_eq!(r.navigation_status, "3");
    assert_eq!(r.name, "");
    assert_eq!(r.eta, "");
    assert_eq!(r.imo, "");
    assert_eq!(r.landfall_time, "1577836805");
    assert_eq!(r.source, "sat_7");
    assert_eq!(r.channel, "B");
    assert_eq!(r.raw_payload, CLASS_A);
    assert_eq!(r.message_class, MessageClass::Singleline);
}

#[test]
fn decode_static_report() {
    let payload = format!("{}{}", STATIC_FIRST, STATIC_SECOND);
    let r = decode_payload(fragment(&payload, "1577836800"));
    assert_eq!(r.message_type, 5);
    assert_eq!(r.mmsi, "351759000");
    assert_eq!(r.imo, "9134270");
    assert_eq!(r.call_sign, "3FOF8");
    assert_eq!(r.name, "EVER DIADEM");
    assert_eq!(r.destination, "NEW YORK");
    assert_eq!(r.ship_type, "70");
    assert_eq!(r.draught, "122");
    assert_eq!(r.eta, "1592578800");
    assert_eq!(r.latitude, 0);
    assert_eq!(r.course_over_ground, "");
}

#[test]
fn decode_static_report_without_acquisition_time() {
    let payload = format!("{}{}", STATIC_FIRST, STATIC_SECOND);
    let r = decode_payload(fragment(&payload, ""));
    assert_eq!(r.eta, (1592578800u64 - 1577836800).to_string());
}

#[test]
fn decode_class_b_position() {
    let r = decode_payload(fragment(CLASS_B, ""));
    assert_eq!(r.message_type, 18);
    assert_eq!(r.mmsi, "338087471");
    assert_eq!(r.longitude, -44443279);
    assert_eq!(r.latitude, 24410724);
    assert_eq!(r.position_accuracy, "0");
    assert_eq!(r.course_over_ground, "796");
    assert_eq!(r.speed_over_ground, "1");
    assert_eq!(r.navigation_status, "");
}

#[test]
fn decode_class_b_extended() {
    let r = decode_payload(fragment(CLASS_B_EXTENDED, ""));
    assert_eq!(r.message_type, 19);
    assert_eq!(r.mmsi, "211234560");
    assert_eq!(r.speed_over_ground, "123");
    assert_eq!(r.course_over_ground, "2345");
    assert_eq!(r.position_accuracy, "1");
    assert_eq!(r.name, "SEA BREEZE");
    assert_eq!(r.ship_type, "37");
    assert_eq!(r.latitude, 0);
}

#[test]
fn decode_unknown_type_keeps_header_only() {
    let r = decode_payload(fragment("H42O55i18tMET00000000000000", "12"));
    assert_eq!(r.message_type, 24);
    assert_eq!(r.mmsi, "");
    assert_eq!(r.name, "");
    assert_eq!(r.eta, "");
    assert_eq!(r.latitude, 0);
    assert_eq!(r.longitude, 0);
    assert_eq!(r.satellite_acquisition_time, "12");
}

#[test]
fn decode_empty_payload() {
    let r = decode_payload(fragment("", ""));
    assert_eq!(r.message_type, 0);
    assert_eq!(r.mmsi, "");
}

#[test]
fn decimal_string_values() {
    assert_eq!(decimal_string(0), "0");
    assert_eq!(decimal_string(7), "7");
    assert_eq!(decimal_string(366053209), "366053209");
    assert_eq!(decimal_string(u64::MAX), "18446744073709551615");
}

#[test]
fn parse_digits_values() {
    assert_eq!(parse_digits_saturating("1577836800"), Some(1577836800));
    assert_eq!(parse_digits_saturating("0"), Some(0));
    assert_eq!(parse_digits_saturating(""), None);
    assert_eq!(parse_digits_saturating("12a"), None);
    assert_eq!(parse_digits_saturating("99999999999999999999999"), Some(u64::MAX));
}

#[test]
fn readable_groups_thousands() {
    assert_eq!(readable("0".to_string()), "0");
    assert_eq!(readable("999".to_string()), "999");
    assert_eq!(readable("1000".to_string()), "1,000");
    assert_eq!(readable("1234567".to_string()), "1,234,567");
    assert_eq!(readable("-100000".to_string()), "-100,000");
    assert_eq!(readable("-12".to_string()), "-12");
}
