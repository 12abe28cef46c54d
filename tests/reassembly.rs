use ais_stream::extract::{process_line, LineOutcome};
use ais_stream::fragment::{MessageClass, TaggedFragment};
use ais_stream::reassembly::{last_four_characters, Reassembler};

const STATIC_FIRST: &str = "55?MbV02;H;s<HtKR20EHE:0@T4@Dn2222222216L961O5Gf0NSQEp6ClRp8";
const STATIC_SECOND: &str = "88888888880";

fn part(group: &str, payload: &str, acquired: &str, source: &str) -> TaggedFragment {
    TaggedFragment {
        landfall_time: "1577836805".to_string(),
        group: group.to_string(),
        satellite_acquisition_time: acquired.to_string(),
        source: source.to_string(),
        channel: "A".to_string(),
        raw_payload: payload.to_string(),
        message_class: MessageClass::Multiline,
    }
}

#[test]
fn last_four_values() {
    assert_eq!(last_four_characters("1-2-9001"), "9001");
    assert_eq!(last_four_characters("9001"), "9001");
    assert_eq!(last_four_characters("001"), "");
    assert_eq!(last_four_characters(""), "");
}

#[test]
fn pair_completes_in_order() {
    let mut r = Reassembler::new();
    assert!(r.accept(part("1-2-9001", STATIC_FIRST, "1577836800", "sat_1")).is_none());
    let rec = r
        .accept(part("2-2-9001", STATIC_SECOND, "1577836900", "sat_2"))
        .expect("the second part completes the group");
    assert_eq!(rec.raw_payload, format!("{}{}", STATIC_FIRST, STATIC_SECOND));
    assert_eq!(rec.message_type, 5);
    assert_eq!(rec.satellite_acquisition_time, "1577836800");
    assert_eq!(rec.source, "sat_1");
    assert_eq!(rec.group, "2-2-9001");
    assert_eq!(rec.message_class, MessageClass::Multiline);
    assert_eq!(rec.eta, "1592578800");
}

#[test]
fn pair_completes_in_reverse_order() {
    let mut r = Reassembler::new();
    assert!(r.accept(part("2-2-9001", STATIC_SECOND, "", "")).is_none());
    let rec = r
        .accept(part("1-2-9001", STATIC_FIRST, "1577836800", "sat_1"))
        .expect("the first part completes the group");
    assert_eq!(rec.raw_payload, format!("{}{}", STATIC_FIRST, STATIC_SECOND));
    assert_eq!(rec.name, "EVER DIADEM");
    assert_eq!(rec.source, "sat_1");
}

#[test]
fn completion_is_exactly_once() {
    let mut r = Reassembler::new();
    let mut emitted = 0;
    for f in [part("1-2-9001", "1", "", ""), part("2-2-9001", "2", "", "")] {
        if r.accept(f).is_some() {
            emitted += 1;
        }
    }
    assert_eq!(emitted, 1);
    // A third part with the same tag starts afresh: nothing is left to pair with.
    assert!(r.accept(part("1-2-9001", "3", "", "")).is_none());
    let rec = r.accept(part("2-2-9001", "4", "", "")).expect("a new pair completes");
    assert_eq!(rec.raw_payload, "34");
}

#[test]
fn missing_acquisition_and_source_default_to_empty() {
    let mut r = Reassembler::new();
    assert!(r.accept(part("1-2-0042", "1", "", "")).is_none());
    let rec = r.accept(part("2-2-0042", "2", "99", "sat")).unwrap();
    assert_eq!(rec.satellite_acquisition_time, "");
    assert_eq!(rec.source, "");
}

#[test]
fn unmatched_fragment_never_emits() {
    let mut r = Reassembler::new();
    for _ in 0..3 {
        assert!(r.accept(part("1-2-7777", "1", "5", "s")).is_none());
    }
    assert!(r.accept(part("1-2-8888", "x", "", "")).is_none());
    assert!(r.accept(part("0-2-7777", "y", "", "")).is_none());
    // The entry is still there: its partner completes it much later.
    let rec = r.accept(part("2-2-7777", "2", "", "")).unwrap();
    assert_eq!(rec.raw_payload, "12");
    assert_eq!(rec.satellite_acquisition_time, "5");
}

#[test]
fn short_group_never_emits() {
    let mut r = Reassembler::new();
    for g in ["1", "12", "1-2", "2-2", "1-2"] {
        assert!(r.accept(part(g, "1", "", "")).is_none());
    }
}

#[test]
fn two_sentence_static_report_end_to_end() {
    let lines = [
        "1577836805\\g:1-2-9001,c:1577836800,s:terrestrial*1C\\!AIVDM,2,1,5,A,55?MbV02;H;s<HtKR20EHE:0@T4@Dn2222222216L961O5Gf0NSQEp6ClRp8,0*1C",
        "1577836806\\g:2-2-9001*25\\!AIVDM,2,2,5,A,88888888880,2*25",
    ];
    let mut r = Reassembler::new();
    let mut records = Vec::new();
    for line in lines {
        match process_line(line) {
            LineOutcome::Fragment(f) => {
                if let Some(rec) = r.accept(f) {
                    records.push(rec);
                }
            }
            _ => panic!("expected a fragment"),
        }
    }
    assert_eq!(records.len(), 1);
    let rec = &records[0];
    assert_eq!(rec.message_class, MessageClass::Multiline);
    assert_eq!(rec.message_type, 5);
    assert_eq!(rec.call_sign, "3FOF8");
    assert_eq!(rec.name, "EVER DIADEM");
    assert_eq!(rec.destination, "NEW YORK");
    assert_eq!(rec.mmsi, "351759000");
    assert_eq!(rec.source, "terrestrial");
    assert_eq!(rec.satellite_acquisition_time, "1577836800");
    assert_eq!(rec.landfall_time, "1577836806");
}
