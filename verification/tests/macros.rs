use oxirush_ngap::macros::{find_last_ie, require_ie, MissingIeError};

#[derive(Debug)]
enum Ie {
    AmfUeNgapId(u64),
    RanUeNgapId(u32),
    Cause(u8),
}

fn amf_id(ie: &Ie) -> Option<u64> {
    if let Ie::AmfUeNgapId(v) = ie { Some(*v) } else { None }
}

fn cause(ie: &Ie) -> Option<u8> {
    if let Ie::Cause(v) = ie { Some(*v) } else { None }
}

#[test]
fn required_ie_present_or_missing() {
    let ies = vec![Ie::RanUeNgapId(0), Ie::AmfUeNgapId(1)];
    let amf = require_ie("amf_id", find_last_ie(&ies, amf_id));
    assert_eq!(amf.unwrap(), 1);
    let missing = require_ie("cause", find_last_ie(&ies, cause));
    let err: MissingIeError = missing.unwrap_err();
    assert_eq!(err.ie_name, "cause");
    assert_eq!(err.message(), "missing required NGAP IE: cause");
}

#[test]
fn optional_ie_stays_option() {
    let ies = vec![Ie::AmfUeNgapId(7)];
    assert_eq!(find_last_ie(&ies, cause), None);
    assert_eq!(find_last_ie(&ies, amf_id), Some(7));
    let empty: Vec<Ie> = vec![];
    assert_eq!(find_last_ie(&empty, amf_id), None);
}

#[test]
fn last_occurrence_wins() {
    let ies = vec![Ie::Cause(1), Ie::AmfUeNgapId(5), Ie::Cause(3), Ie::RanUeNgapId(2)];
    assert_eq!(find_last_ie(&ies, cause), Some(3));
}
