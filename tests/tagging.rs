use ais_stream::decode::DecodedRecord;
use ais_stream::extract::{process_line, LineOutcome};
use ais_stream::fragment::{is_ais_sentence, tag_sentence, MessageClass};

const SINGLE: &str = "1577836805\\c:1577836799,s:sat_7*5A\\!AIVDM,1,1,,B,15M67FC000G?ufbE`FepT@3n00Sa,0*5C";

#[test]
fn marker_filter() {
    assert!(is_ais_sentence(SINGLE));
    assert!(is_ais_sentence("VDM"));
    assert!(!is_ais_sentence("!AIVDO,1,1,,B,15M67FC000G?ufbE`FepT@3n00Sa,0*5C"));
    assert!(!is_ais_sentence("vdm"));
    assert!(!is_ais_sentence(""));
}

#[test]
fn tag_single_sentence() {
    let f = tag_sentence(SINGLE);
    assert_eq!(f.landfall_time, "1577836805");
    assert_eq!(f.satellite_acquisition_time, "1577836799");
    assert_eq!(f.source, "sat_7");
    assert_eq!(f.group, "");
    assert_eq!(f.channel, "B");
    assert_eq!(f.raw_payload, "15M67FC000G?ufbE`FepT@3n00Sa");
    assert_eq!(f.message_class, MessageClass::Singleline);
}

#[test]
fn tag_group_sentence() {
    let f = tag_sentence("\\g:1-2-9001,c:1577836800,s:terrestrial-2*1C\\!AIVDM,2,1,5,A,55?MbV02,0*1C");
    assert_eq!(f.landfall_time, "");
    assert_eq!(f.group, "1-2-9001");
    assert_eq!(f.satellite_acquisition_time, "1577836800");
    assert_eq!(f.source, "terrestrial-2");
    assert_eq!(f.channel, "A");
    assert_eq!(f.raw_payload, "55?MbV02");
    assert_eq!(f.message_class, MessageClass::Multiline);
}

#[test]
fn tag_malformed_line_defaults_to_empty() {
    let f = tag_sentence("VDM");
    assert_eq!(f.landfall_time, "");
    assert_eq!(f.group, "");
    assert_eq!(f.satellite_acquisition_time, "");
    assert_eq!(f.source, "");
    assert_eq!(f.channel, "");
    assert_eq!(f.raw_payload, "");
    let f = tag_sentence("12VDM,payload,0*00");
    assert_eq!(f.landfall_time, "12");
    assert_eq!(f.channel, "12VDM");
    assert_eq!(f.raw_payload, "payload");
    let f = tag_sentence("12VDM,0*00");
    assert_eq!(f.channel, "");
    assert_eq!(f.raw_payload, "12VDM");
}

#[test]
fn tag_uses_first_occurrence() {
    let f = tag_sentence("c:x,c:55,VDM,A,P,0");
    assert_eq!(f.satellite_acquisition_time, "");
    let f = tag_sentence("c:55,c:66,VDM,A,P,0");
    assert_eq!(f.satellite_acquisition_time, "55");
}

#[test]
fn single_sentence_end_to_end() {
    match process_line(SINGLE) {
        LineOutcome::Record(r) => {
            let r: DecodedRecord = r;
            assert_eq!(r.message_type, 1);
            assert_eq!(r.message_class, MessageClass::Singleline);
            assert_eq!(r.mmsi, "366053209");
            assert_eq!(r.latitude, 22681271);
            assert_eq!(r.longitude, -73404971);
            assert_eq!(r.satellite_acquisition_time, "1577836799");
        }
        _ => panic!("expected a decoded record"),
    }
}

#[test]
fn line_without_marker_is_skipped() {
    assert!(matches!(process_line("1577836805 hello,world,0"), LineOutcome::Skipped));
}

#[test]
fn group_line_becomes_fragment() {
    match process_line("\\g:2-2-9001*25\\!AIVDM,2,2,5,A,88888888880,2*25") {
        LineOutcome::Fragment(f) => {
            assert_eq!(f.group, "2-2-9001");
            assert_eq!(f.raw_payload, "88888888880");
            assert_eq!(f.message_class, MessageClass::Multiline);
        }
        _ => panic!("expected a fragment"),
    }
}

#[test]
fn source_token_takes_unicode_alphanumerics() {
    let f = tag_sentence("\\s:Ålesund_2-β.x*1C\\!AIVDM,1,1,,A,P,0*00");
    assert_eq!(f.source, "Ålesund_2-β");
    let f = tag_sentence("\\s:*1C\\!AIVDM,1,1,,A,P,0*00");
    assert_eq!(f.source, "");
}
