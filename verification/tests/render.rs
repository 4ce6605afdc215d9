use oxirush_ngap::render::{extra_for, render_extra};
use oxirush_ngap::scan::{scan_generated, GeneratedTables, ScanError};

fn ln(out: &mut String, line: String) {
    out.push_str(&line);
    out.push('\n');
}

/// The appended code, written with `format!` templates.
fn templated(t: &GeneratedTables) -> String {
    let mut extra = String::new();
    ln(&mut extra, format!("\n// Auto-generated From impls for newtype structs (used by build_ngap! macro)"));
    for (name, inner) in &t.newtypes {
        ln(&mut extra, format!("impl From<{inner}> for {name} {{ fn from(v: {inner}) -> Self {{ {name}(v) }} }}"));
    }
    ln(&mut extra, format!("\n// Auto-generated IE ID lookup macro (derived from #[asn(key = N)] attributes)"));
    ln(&mut extra, format!("#[macro_export]"));
    ln(&mut extra, format!("#[doc(hidden)]"));
    ln(&mut extra, format!("macro_rules! __ngap_ie_id {{"));
    for (v, key) in &t.ie_ids {
        ln(&mut extra, format!("    ({v}) => {{ {key}u16 }};"));
    }
    ln(&mut extra, format!("}}"));
    ln(&mut extra, format!("\n// Auto-generated procedure code lookup macro (derived from {{Direction}}Value enums)"));
    ln(&mut extra, format!("#[macro_export]"));
    ln(&mut extra, format!("#[doc(hidden)]"));
    ln(&mut extra, format!("macro_rules! __ngap_proc_code {{"));
    for (v, code) in &t.procedure_codes {
        ln(&mut extra, format!("    ({v}) => {{ {code}u8 }};"));
    }
    ln(&mut extra, format!("}}"));
    ln(&mut extra, format!("\n// Auto-generated NGAP_PDU inspection methods and Display impl"));
    ln(&mut extra, format!("impl NGAP_PDU {{"));
    ln(&mut extra, format!("    /// Return the procedure code of this PDU."));
    ln(&mut extra, format!("    pub fn procedure_code(&self) -> u8 {{"));
    ln(&mut extra, format!("        match self {{"));
    ln(&mut extra, format!("            NGAP_PDU::InitiatingMessage(m) => m.procedure_code.0,"));
    ln(&mut extra, format!("            NGAP_PDU::SuccessfulOutcome(m) => m.procedure_code.0,"));
    ln(&mut extra, format!("            NGAP_PDU::UnsuccessfulOutcome(m) => m.procedure_code.0,"));
    ln(&mut extra, format!("        }}"));
    ln(&mut extra, format!("    }}"));
    ln(&mut extra, format!("    /// Return the PDU direction as a human-readable string."));
    ln(&mut extra, format!("    pub fn direction(&self) -> &'static str {{"));
    ln(&mut extra, format!("        match self {{"));
    ln(&mut extra, format!("            NGAP_PDU::InitiatingMessage(_) => \"InitiatingMessage\","));
    ln(&mut extra, format!("            NGAP_PDU::SuccessfulOutcome(_) => \"SuccessfulOutcome\","));
    ln(&mut extra, format!("            NGAP_PDU::UnsuccessfulOutcome(_) => \"UnsuccessfulOutcome\","));
    ln(&mut extra, format!("        }}"));
    ln(&mut extra, format!("    }}"));
    ln(&mut extra, format!("    /// Returns `true` if this is an initiating message."));
    ln(&mut extra, format!("    pub fn is_initiating(&self) -> bool {{ matches!(self, NGAP_PDU::InitiatingMessage(_)) }}"));
    ln(&mut extra, format!("    /// Returns `true` if this is a successful outcome."));
    ln(&mut extra, format!("    pub fn is_successful(&self) -> bool {{ matches!(self, NGAP_PDU::SuccessfulOutcome(_)) }}"));
    ln(&mut extra, format!("    /// Returns `true` if this is an unsuccessful outcome."));
    ln(&mut extra, format!("    pub fn is_unsuccessful(&self) -> bool {{ matches!(self, NGAP_PDU::UnsuccessfulOutcome(_)) }}"));
    ln(&mut extra, format!("    /// Return the procedure name as a human-readable string."));
    ln(&mut extra, format!("    pub fn procedure_name(&self) -> &'static str {{"));
    ln(&mut extra, format!("        match self {{"));
    let dirs = [
        ("InitiatingMessage", &t.initiating),
        ("SuccessfulOutcome", &t.successful),
        ("UnsuccessfulOutcome", &t.unsuccessful),
    ];
    for (direction, variants) in dirs {
        if let Some(variants) = variants {
            ln(&mut extra, format!("            NGAP_PDU::{direction}(m) => match &m.value {{"));
            for v in variants {
                ln(&mut extra, format!("                {direction}Value::Id_{v}(_) => \"{v}\","));
            }
            ln(&mut extra, format!("            }},"));
        }
    }
    ln(&mut extra, format!("        }}"));
    ln(&mut extra, format!("    }}"));
    ln(&mut extra, format!("}}"));
    ln(&mut extra, format!("impl std::fmt::Display for NGAP_PDU {{"));
    ln(&mut extra, format!("    fn fmt(&self, f: &mut std::fmt::Formatter<'_>) -> std::fmt::Result {{"));
    ln(&mut extra, format!("        write!(f, \"{{}} {{}} (code={{}})\", self.direction(), self.procedure_name(), self.procedure_code())"));
    ln(&mut extra, format!("    }}"));
    ln(&mut extra, format!("}}"));
    extra
}

fn tables(
    newtypes: &[(&str, &str)],
    ie_ids: &[(&str, u16)],
    codes: &[(&str, u8)],
    dirs: [Option<&[&str]>; 3],
) -> GeneratedTables {
    let names = |v: Option<&[&str]>| v.map(|v| v.iter().map(|s| s.to_string()).collect());
    GeneratedTables {
        newtypes: newtypes.iter().map(|(a, b)| (a.to_string(), b.to_string())).collect(),
        ie_ids: ie_ids.iter().map(|(a, k)| (a.to_string(), *k)).collect(),
        procedure_codes: codes.iter().map(|(a, k)| (a.to_string(), *k)).collect(),
        initiating: names(dirs[0]),
        successful: names(dirs[1]),
        unsuccessful: names(dirs[2]),
    }
}

#[test]
fn render_matches_templates() {
    let t = tables(
        &[("AMF_UE_NGAP_ID", "u64"), ("NRCellIdentity", "BitVec<u8, Msb0>")],
        &[("AMF_UE_NGAP_ID", 10), ("Big", 65535), ("Zero", 0), ("RAN_UE_NGAP_ID", 85)],
        &[("NGSetup", 21), ("Max", 255), ("Min", 0)],
        [Some(&["InitialContextSetup", "NGSetup"]), None, Some(&[])],
    );
    assert_eq!(render_extra(&t), templated(&t));
}

#[test]
fn render_empty_tables() {
    let t = tables(&[], &[], &[], [None, None, None]);
    let text = render_extra(&t);
    assert_eq!(text, templated(&t));
    assert!(text.contains("macro_rules! __ngap_ie_id {\n}\n"));
    assert!(!text.contains("=> match &m.value"));
}

#[test]
fn render_sample_lines() {
    let t = tables(
        &[("RAN_UE_NGAP_ID", "u32")],
        &[("Cause", 15)],
        &[("NGSetup", 21)],
        [Some(&["NGSetup"]), Some(&["NGSetup"]), None],
    );
    let text = render_extra(&t);
    assert!(text.contains("impl From<u32> for RAN_UE_NGAP_ID { fn from(v: u32) -> Self { RAN_UE_NGAP_ID(v) } }\n"));
    assert!(text.contains("    (Cause) => { 15u16 };\n"));
    assert!(text.contains("    (NGSetup) => { 21u8 };\n"));
    assert!(text.contains("                SuccessfulOutcomeValue::Id_NGSetup(_) => \"NGSetup\",\n"));
    assert!(!text.contains("NGAP_PDU::UnsuccessfulOutcome(m) => match"));
    assert!(text.contains("write!(f, \"{} {} (code={})\", self.direction(), self.procedure_name(), self.procedure_code())"));
}

#[test]
fn render_scanned_code() {
    let code = "pub struct A(pub u8);\npub enum XProtocolIEs_EntryValue {\n    #[asn(key = 1234)]\n    Id_A(A),\n}\npub enum InitiatingMessageValue {\n    #[asn(key = 300)]\n    Id_P(P),\n}\n";
    let t = scan_generated(code).unwrap();
    let text = render_extra(&t);
    assert_eq!(text, templated(&t));
    assert!(text.contains("    (A) => { 1234u16 };\n"));
    assert!(text.contains("    (P) => { 44u8 };\n"));
}

#[test]
fn version_is_set() {
    assert_eq!(oxirush_ngap::VERSION, "0.3.0");
}

#[test]
fn extra_for_scans_then_renders() {
    let code = "pub enum SuccessfulOutcomeValue {\n    #[asn(key = 21)]\n    Id_NGSetup(NGSetupResponse),\n}\n";
    let text = extra_for(code).unwrap();
    assert_eq!(text, templated(&scan_generated(code).unwrap()));
    assert!(text.contains("            NGAP_PDU::SuccessfulOutcome(m) => match &m.value {\n"));
    let bad = "pub enum SuccessfulOutcomeValue {\n    #[asn(key = 70000)]\n    Id_X(X),\n}\n";
    assert_eq!(extra_for(bad).err(), Some(ScanError::KeyOutOfRange));
}
