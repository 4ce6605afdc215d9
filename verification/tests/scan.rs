use oxirush_ngap::scan::{scan_generated, GeneratedTables, ScanError};
use regex::Regex;
use std::collections::HashMap;

/// What the build step derives, computed with the regular expressions that
/// describe the line shapes.
struct Expected {
    newtypes: Vec<(String, String)>,
    ie_ids: Vec<(String, u16)>,
    proc_codes: Vec<(String, u8)>,
    directions: HashMap<String, Vec<String>>,
}

fn expected(content: &str) -> Result<Expected, String> {
    let re_newtype = Regex::new(r"(?m)^pub struct (\w+)\(pub (.+)\);$").unwrap();
    let mut newtypes = Vec::new();
    for cap in re_newtype.captures_iter(content) {
        let inner = &cap[2];
        if inner.contains(',') && !inner.contains('<') {
            continue;
        }
        newtypes.push((cap[1].to_string(), inner.to_string()));
    }
    let re_asn_key = Regex::new(r"#\[asn\(key = (\d+)").unwrap();
    let re_variant = Regex::new(r"^\s+Id_(\w+)\(").unwrap();
    let re_entry_value_enum = Regex::new(r"pub enum \w+ProtocolIEs_EntryValue").unwrap();
    let mut ie_id_map: HashMap<String, u16> = HashMap::new();
    let lines: Vec<&str> = content.lines().collect();
    let mut in_enum = false;
    let mut pending: Option<u16> = None;
    for line in &lines {
        if re_entry_value_enum.is_match(line) {
            in_enum = true;
            continue;
        }
        if in_enum {
            if line.starts_with('}') {
                in_enum = false;
                pending = None;
                continue;
            }
            if let Some(cap) = re_asn_key.captures(line) {
                pending = Some(cap[1].parse::<u16>().map_err(|e| e.to_string())?);
            }
            if let Some(cap) = re_variant.captures(line) {
                if let Some(key) = pending {
                    ie_id_map.entry(cap[1].to_string()).or_insert(key);
                    pending = None;
                }
            }
        }
    }
    let mut ie_ids: Vec<_> = ie_id_map.into_iter().collect();
    ie_ids.sort_by(|a, b| a.0.cmp(&b.0));

    let re_direction_enum =
        Regex::new(r"pub enum (InitiatingMessage|SuccessfulOutcome|UnsuccessfulOutcome)Value")
            .unwrap();
    let mut proc_code_map: HashMap<String, u8> = HashMap::new();
    let mut directions: HashMap<String, Vec<String>> = HashMap::new();
    let mut in_enum = false;
    let mut current = String::new();
    pending = None;
    for line in &lines {
        if let Some(cap) = re_direction_enum.captures(line) {
            in_enum = true;
            current = cap[1].to_string();
            directions.entry(current.clone()).or_default();
            continue;
        }
        if in_enum {
            if line.starts_with('}') {
                in_enum = false;
                pending = None;
                continue;
            }
            if let Some(cap) = re_asn_key.captures(line) {
                pending = Some(cap[1].parse::<u16>().map_err(|e| e.to_string())?);
            }
            if let Some(cap) = re_variant.captures(line) {
                if let Some(key) = pending {
                    proc_code_map.entry(cap[1].to_string()).or_insert(key as u8);
                    directions.entry(current.clone()).or_default().push(cap[1].to_string());
                    pending = None;
                }
            }
        }
    }
    let mut proc_codes: Vec<_> = proc_code_map.into_iter().collect();
    proc_codes.sort_by(|a, b| a.0.cmp(&b.0));
    for v in directions.values_mut() {
        v.sort();
    }
    Ok(Expected { newtypes, ie_ids, proc_codes, directions })
}

fn assert_agrees(content: &str) {
    let want = expected(content).unwrap();
    let got: GeneratedTables = scan_generated(content).unwrap();
    assert_eq!(got.newtypes, want.newtypes);
    assert_eq!(got.ie_ids, want.ie_ids);
    assert_eq!(got.procedure_codes, want.proc_codes);
    assert_eq!(got.initiating, want.directions.get("InitiatingMessage").cloned());
    assert_eq!(got.successful, want.directions.get("SuccessfulOutcome").cloned());
    assert_eq!(got.unsuccessful, want.directions.get("UnsuccessfulOutcome").cloned());
}

const SAMPLE: &str = "\
#[derive(Debug, AperCodec, PartialEq)]
#[asn(type = \"INTEGER\", lb = \"0\", ub = \"1099511627775\")]
pub struct AMF_UE_NGAP_ID(pub u64);
pub struct RAN_UE_NGAP_ID(pub u32);
pub struct Pair(pub u8, pub u16);
pub struct Wrapped(pub HashMap<u8, u16>);
pub struct NRCellIdentity(pub BitVec<u8, Msb0>);
 pub struct Indented(pub u8);
pub struct Empty(pub );
#[derive(Debug, AperCodec, PartialEq)]
#[asn(type = \"OPEN\", extensible = false)]
pub enum UEContextReleaseRequestProtocolIEs_EntryValue {
    #[asn(key = 10)]
    Id_AMF_UE_NGAP_ID(AMF_UE_NGAP_ID),
    #[asn(key = 85)]
    Id_RAN_UE_NGAP_ID(RAN_UE_NGAP_ID),
    #[asn(key = 15)]
    Id_Cause(Cause),
}

pub enum NGSetupRequestProtocolIEs_EntryValue {
    #[asn(key = 27)]
    Id_GlobalRANNodeID(GlobalRANNodeID),
    #[asn(key = 99)]
    Id_AMF_UE_NGAP_ID(AMF_UE_NGAP_ID),
    Id_NoKey(NoKey),
    #[asn(key = 0082)]
    Id_RANNodeName(RANNodeName),
    #[asn(key = 4)] Id_OnOneLine(OnOneLine),
}

pub enum NotAnEntryValue {
    #[asn(key = 7)]
    Id_Outside(Outside),
}

#[derive(Debug, AperCodec, PartialEq)]
#[asn(type = \"OPEN\", extensible = false)]
pub enum InitiatingMessageValue {
    #[asn(key = 41)]
    Id_UEContextReleaseRequest(UEContextReleaseRequest),
    #[asn(key = 21)]
    Id_NGSetup(NGSetupRequest),
    #[asn(key = 277)]
    Id_Wrapped(Wrapped),
    #[asn(key = 14)]
    Id_InitialContextSetup(InitialContextSetupRequest),
}
pub enum SuccessfulOutcomeValue {
    #[asn(key = 21)]
    Id_NGSetup(NGSetupResponse),
    #[asn(key = 14)]
    Id_InitialContextSetup(InitialContextSetupResponse),
}
";

#[test]
fn scan_agrees_with_the_line_patterns() {
    assert_agrees(SAMPLE);
}

#[test]
fn scan_sample_tables() {
    let t = scan_generated(SAMPLE).unwrap();
    let names: Vec<&str> = t.newtypes.iter().map(|(n, _)| n.as_str()).collect();
    assert_eq!(names, vec!["AMF_UE_NGAP_ID", "RAN_UE_NGAP_ID", "Wrapped", "NRCellIdentity"]);
    assert_eq!(t.newtypes[3].1, "BitVec<u8, Msb0>");
    let ids: Vec<(&str, u16)> = t.ie_ids.iter().map(|(n, k)| (n.as_str(), *k)).collect();
    assert_eq!(
        ids,
        vec![
            ("AMF_UE_NGAP_ID", 10),
            ("Cause", 15),
            ("GlobalRANNodeID", 27),
            ("RANNodeName", 82),
            ("RAN_UE_NGAP_ID", 85),
        ]
    );
    let codes: Vec<(&str, u8)> = t.procedure_codes.iter().map(|(n, k)| (n.as_str(), *k)).collect();
    assert_eq!(
        codes,
        vec![
            ("InitialContextSetup", 14),
            ("NGSetup", 21),
            ("UEContextReleaseRequest", 41),
            ("Wrapped", 21),
        ]
    );
    assert_eq!(
        t.initiating.unwrap(),
        vec!["InitialContextSetup", "NGSetup", "UEContextReleaseRequest", "Wrapped"]
    );
    assert_eq!(t.successful.unwrap(), vec!["InitialContextSetup", "NGSetup"]);
    assert!(t.unsuccessful.is_none());
}

#[test]
fn scan_key_out_of_range_fails() {
    let text = "pub enum XProtocolIEs_EntryValue {\n    #[asn(key = 65536)]\n    Id_X(X),\n}\n";
    assert!(expected(text).is_err());
    assert_eq!(scan_generated(text).err(), Some(ScanError::KeyOutOfRange));
    let text = "pub enum SuccessfulOutcomeValue {\n    #[asn(key = 99999999999999999999)]\n}\n";
    assert_eq!(scan_generated(text).err(), Some(ScanError::KeyOutOfRange));
    // A key outside of any enum that is scanned is not read.
    let text = "#[asn(key = 65536)]\n    Id_X(X),\n";
    assert!(scan_generated(text).is_ok());
    let text = "pub enum XProtocolIEs_EntryValue {\n    #[asn(key = 65535)]\n    Id_X(X),\n}\n";
    assert_eq!(scan_generated(text).unwrap().ie_ids, vec![("X".to_string(), 65535)]);
}

#[test]
fn scan_line_endings() {
    let crlf = SAMPLE.replace('\n', "\r\n");
    assert_agrees(&crlf);
    assert_agrees("");
    assert_agrees("\n");
    assert_agrees("pub struct A(pub u8);");
    assert_agrees("pub struct A(pub u8);\r");
    assert_agrees("pub enum InitiatingMessageValue {\r\n    #[asn(key = 3)]\r\n    Id_P(P),\r\n}");
}

#[test]
fn scan_enum_edge_cases() {
    assert_agrees("pub enum ProtocolIEs_EntryValue {\n    #[asn(key = 1)]\n    Id_A(A),\n}\n");
    assert_agrees("x pub enum AProtocolIEs_EntryValueB {\n  #[asn(key = 1)]\n\tId_A(A),\n}\n");
    assert_agrees("pub enum A_ProtocolIEs_EntryValue {\n#[asn(key = 1)]\nId_A(A),\n  Id_B (B),\n}\n");
    assert_agrees(
        "pub enum SuccessfulOutcomeValue pub enum InitiatingMessageValue {\n #[asn(key = 2)]\n Id_Q(Q),\n #[asn(key = 3)]\n Id_Q(Q),\n}\n",
    );
    assert_agrees(
        "pub enum UnsuccessfulOutcomeValue {\n #[asn(key = 300)] #[asn(key = 5)]\n Id_R(R),\n }\n Id_S(S),\n}\n pub enum UnsuccessfulOutcomeValue {\n #[asn(key = 1)]\n Id_R(R),\n}\n",
    );
}

#[test]
fn scan_large_generated_module() {
    let mut text = String::new();
    for i in 0..2000 {
        text.push_str(&format!("#[derive(Debug, AperCodec, PartialEq)]\npub struct Type{i}(pub u{});\n", 8 << (i % 4)));
    }
    for e in 0..200 {
        text.push_str(&format!("pub enum Msg{e}ProtocolIEs_EntryValue {{\n"));
        for v in 0..20 {
            text.push_str(&format!("    #[asn(key = {}, extended = false)]\n    Id_Ie{}(Ie{}),\n", (e * 7 + v * 13) % 300, (e + v) % 260, v));
        }
        text.push_str("}\n\n");
    }
    text.push_str("pub enum InitiatingMessageValue {\n");
    for p in 0..60 {
        text.push_str(&format!("    #[asn(key = {})]\n    Id_Proc{}(Proc{}),\n", p, 59 - p, p));
    }
    text.push_str("}\n");
    assert_agrees(&text);
    let t = scan_generated(&text).unwrap();
    assert_eq!(t.newtypes.len(), 2000);
    assert_eq!(t.ie_ids.len(), 219);
    assert_eq!(t.initiating.unwrap().len(), 60);
}
