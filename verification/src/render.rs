//! The code that the build step appends to the generated NGAP module,
//! written from the tables that `scan::scan_generated` derives:
//! - a `From` impl for each newtype;
//! - the `__ngap_ie_id!` macro, one arm per IE variant, giving its IE ID;
//! - the `__ngap_proc_code!` macro, one arm per procedure, giving its code;
//! - the `NGAP_PDU` inspection methods `procedure_code`, `direction`,
//!   `is_initiating`, `is_successful`, `is_unsuccessful` and
//!   `procedure_name` (one arm per procedure of each direction whose enum
//!   the generated code has);
//! - `Display` for `NGAP_PDU`: `"{direction} {procedure_name} (code={code})"`,
//!   e.g. `"InitiatingMessage NGSetup (code=21)"`.
use crate::scan::{
    ie_scan, proc_scan, scan_generated, string_table_view, strings_view, GeneratedTables,
    ScanError,
};
use crate::text::text_lines;
use crate::codegen::digits_value;
use crate::lexical::{in_class, CharClass};
use crate::text::push_char;
use vstd::prelude::*;

verus! {

// ── Text pieces ─────────────────────────────────────────────────────────────

pub const FROM_HEADER: &'static str =
    "\n// Auto-generated From impls for newtype structs (used by build_ngap! macro)\n";

pub const IE_ID_HEADER: &'static str = "\n// Auto-generated IE ID lookup macro (derived from #[asn(key = N)] attributes)\n#[macro_export]\n#[doc(hidden)]\nmacro_rules! __ngap_ie_id {\n";

pub const PROC_CODE_HEADER: &'static str = "\n// Auto-generated procedure code lookup macro (derived from {Direction}Value enums)\n#[macro_export]\n#[doc(hidden)]\nmacro_rules! __ngap_proc_code {\n";

pub const MACRO_END: &'static str = "}\n";

pub const INSPECTION_HEAD: &'static str = "\n// Auto-generated NGAP_PDU inspection methods and Display impl\nimpl NGAP_PDU {\n    /// Return the procedure code of this PDU.\n    pub fn procedure_code(&self) -> u8 {\n        match self {\n            NGAP_PDU::InitiatingMessage(m) => m.procedure_code.0,\n            NGAP_PDU::SuccessfulOutcome(m) => m.procedure_code.0,\n            NGAP_PDU::UnsuccessfulOutcome(m) => m.procedure_code.0,\n        }\n    }\n    /// Return the PDU direction as a human-readable string.\n    pub fn direction(&self) -> &'static str {\n        match self {\n            NGAP_PDU::InitiatingMessage(_) => \"InitiatingMessage\",\n            NGAP_PDU::SuccessfulOutcome(_) => \"SuccessfulOutcome\",\n            NGAP_PDU::UnsuccessfulOutcome(_) => \"UnsuccessfulOutcome\",\n        }\n    }\n    /// Returns `true` if this is an initiating message.\n    pub fn is_initiating(&self) -> bool { matches!(self, NGAP_PDU::InitiatingMessage(_)) }\n    /// Returns `true` if this is a successful outcome.\n    pub fn is_successful(&self) -> bool { matches!(self, NGAP_PDU::SuccessfulOutcome(_)) }\n    /// Returns `true` if this is an unsuccessful outcome.\n    pub fn is_unsuccessful(&self) -> bool { matches!(self, NGAP_PDU::UnsuccessfulOutcome(_)) }\n    /// Return the procedure name as a human-readable string.\n    pub fn procedure_name(&self) -> &'static str {\n        match self {\n";

pub const INSPECTION_TAIL: &'static str = "        }\n    }\n}\n";

pub const DISPLAY_IMPL: &'static str = "impl std::fmt::Display for NGAP_PDU {\n    fn fmt(&self, f: &mut std::fmt::Formatter<'_>) -> std::fmt::Result {\n        write!(f, \"{} {} (code={})\", self.direction(), self.procedure_name(), self.procedure_code())\n    }\n}\n";

pub const INITIATING: &'static str = "InitiatingMessage";

pub const SUCCESSFUL: &'static str = "SuccessfulOutcome";

pub const UNSUCCESSFUL: &'static str = "UnsuccessfulOutcome";

// ── Decimal numbers ─────────────────────────────────────────────────────────

/// The decimal writing of `n`, without leading zeros (`Display` of an
/// unsigned integer).
pub open spec fn decimal_text(n: nat) -> Seq<char>
    decreases n,
{
    if n < 10 {
        seq![(n + '0' as int) as char]
    } else {
        decimal_text(n / 10) + seq![((n % 10) + '0' as int) as char]
    }
}

/// `decimal_text(n)` is the decimal writing of `n`: it is made of digits,
/// it starts with `0` only when `n` is 0, and read back as a decimal number
/// it gives `n`.
pub proof fn lemma_decimal_text(n: nat)
    ensures
        decimal_text(n).len() > 0,
        forall|i: int|
            0 <= i < decimal_text(n).len() ==> in_class(CharClass::Digit, #[trigger] decimal_text(n)[i]),
        decimal_text(n)[0] == '0' ==> n == 0,
        digits_value(decimal_text(n)) == n,
    decreases n,
{
    let d = ((n % 10) + '0' as int) as char;
    assert(d as int == (n % 10) + '0' as int);
    if n < 10 {
        assert(decimal_text(n).drop_last() =~= Seq::<char>::empty());
        assert(decimal_text(n).last() == d);
        assert(digits_value(Seq::<char>::empty()) == 0);
        assert(digits_value(decimal_text(n)) == 10 * digits_value(Seq::<char>::empty()) + (d as int
            - '0' as int) as nat);
    } else {
        lemma_decimal_text(n / 10);
        let t = decimal_text(n / 10);
        assert(decimal_text(n).drop_last() =~= t);
        assert(decimal_text(n).last() == d);
        assert(digits_value(decimal_text(n)) == 10 * digits_value(t) + (d as int - '0' as int) as nat);
        assert(10 * (n / 10) + n % 10 == n);
        assert(decimal_text(n)[0] == t[0]);
        assert forall|i: int| 0 <= i < decimal_text(n).len() implies in_class(
            CharClass::Digit,
            #[trigger] decimal_text(n)[i],
        ) by {
            if i < t.len() {
                assert(decimal_text(n)[i] == t[i]);
            }
        }
    }
}

/// Append the decimal writing of `n`.
pub fn push_decimal(s: &mut String, n: u32)
    ensures
        final(s)@ == old(s)@ + decimal_text(n as nat),
    decreases n,
{
    if n >= 10 {
        push_decimal(s, n / 10);
    }
    let d = (n % 10) as u8;
    push_char(s, (d + 48) as char);
    assert(s@ =~= old(s)@ + decimal_text(n as nat));
}

// ── The appended code ───────────────────────────────────────────────────────

/// `impl From<INNER> for NAME { fn from(v: INNER) -> Self { NAME(v) } }`.
pub open spec fn from_impl(name: Seq<char>, inner: Seq<char>) -> Seq<char> {
    "impl From<"@ + inner + "> for "@ + name + " { fn from(v: "@ + inner + ") -> Self { "@ + name
        + "(v) } }\n"@
}

/// The `From` impls of the newtypes, in order.
pub open spec fn from_impls(ns: Seq<(Seq<char>, Seq<char>)>) -> Seq<char>
    decreases ns.len(),
{
    if ns.len() == 0 {
        Seq::empty()
    } else {
        from_impls(ns.drop_last()) + from_impl(ns.last().0, ns.last().1)
    }
}

/// A lookup macro arm: `    (NAME) => { VALUE<suffix> };`.
pub open spec fn lookup_arm(name: Seq<char>, value: nat, suffix: Seq<char>) -> Seq<char> {
    "    ("@ + name + ") => { "@ + decimal_text(value) + suffix + " };\n"@
}

/// The arms of the IE ID macro, in table order.
pub open spec fn ie_id_arms(t: Seq<(Seq<char>, u16)>) -> Seq<char>
    decreases t.len(),
{
    if t.len() == 0 {
        Seq::empty()
    } else {
        ie_id_arms(t.drop_last()) + lookup_arm(t.last().0, t.last().1 as nat, "u16"@)
    }
}

/// The arms of the procedure code macro, in table order.
pub open spec fn proc_code_arms(t: Seq<(Seq<char>, u8)>) -> Seq<char>
    decreases t.len(),
{
    if t.len() == 0 {
        Seq::empty()
    } else {
        proc_code_arms(t.drop_last()) + lookup_arm(t.last().0, t.last().1 as nat, "u8"@)
    }
}

/// A `procedure_name` arm: `DIRValue::Id_NAME(_) => "NAME",`.
pub open spec fn name_arm(dir: Seq<char>, name: Seq<char>) -> Seq<char> {
    "                "@ + dir + "Value::Id_"@ + name + "(_) => \""@ + name + "\",\n"@
}

/// The `procedure_name` arms of one direction, in order.
pub open spec fn name_arms(dir: Seq<char>, vs: Seq<Seq<char>>) -> Seq<char>
    decreases vs.len(),
{
    if vs.len() == 0 {
        Seq::empty()
    } else {
        name_arms(dir, vs.drop_last()) + name_arm(dir, vs.last())
    }
}

/// The `procedure_name` match of one direction, nothing for a direction
/// whose enum the generated code does not have.
pub open spec fn direction_names(dir: Seq<char>, vs: Option<Seq<Seq<char>>>) -> Seq<char> {
    match vs {
        None => Seq::empty(),
        Some(vs) => "            NGAP_PDU::"@ + dir + "(m) => match &m.value {\n"@ + name_arms(
            dir,
            vs,
        ) + "            },\n"@,
    }
}

/// The whole appended code: the `From` impls, the two lookup macros, the
/// `NGAP_PDU` inspection methods and the `Display` impl.
pub open spec fn extra_text(
    newtypes: Seq<(Seq<char>, Seq<char>)>,
    ie_ids: Seq<(Seq<char>, u16)>,
    proc_codes: Seq<(Seq<char>, u8)>,
    initiating: Option<Seq<Seq<char>>>,
    successful: Option<Seq<Seq<char>>>,
    unsuccessful: Option<Seq<Seq<char>>>,
) -> Seq<char> {
    FROM_HEADER@ + from_impls(newtypes) + IE_ID_HEADER@ + ie_id_arms(ie_ids) + MACRO_END@
        + PROC_CODE_HEADER@ + proc_code_arms(proc_codes) + MACRO_END@ + INSPECTION_HEAD@
        + direction_names(INITIATING@, initiating) + direction_names(SUCCESSFUL@, successful)
        + direction_names(UNSUCCESSFUL@, unsuccessful) + INSPECTION_TAIL@ + DISPLAY_IMPL@
}

/// Append the `procedure_name` match of one direction.
fn push_direction_names(s: &mut String, dir: &str, vs: &Option<Vec<String>>)
    ensures
        final(s)@ == old(s)@ + direction_names(dir@, strings_view(*vs)),
{
    match vs {
        None => {
            assert(s@ =~= old(s)@ + Seq::<char>::empty());
        },
        Some(vs) => {
            let ghost names = vs@.map_values(|n: String| n@);
            s.append("            NGAP_PDU::");
            s.append(dir);
            s.append("(m) => match &m.value {\n");
            let ghost start = s@;
            let mut i: usize = 0;
            while i < vs.len()
                invariant
                    i <= vs@.len(),
                    names == vs@.map_values(|n: String| n@),
                    s@ == start + name_arms(dir@, names.take(i as int)),
                decreases vs@.len() - i,
            {
                let name = vs[i].as_str();
                assert(names.take(i + 1).drop_last() =~= names.take(i as int));
                assert(names.take(i + 1).last() == name@);
                s.append("                ");
                s.append(dir);
                s.append("Value::Id_");
                s.append(name);
                s.append("(_) => \"");
                s.append(name);
                s.append("\",\n");
                i = i + 1;
                assert(s@ =~= start + name_arms(dir@, names.take(i as int)));
            }
            assert(names.take(vs@.len() as int) =~= names);
            s.append("            },\n");
            assert(s@ =~= old(s)@ + direction_names(dir@, strings_view(Some(*vs))));
        },
    }
}

/// The code that the build step appends to the generated NGAP module.
pub fn render_extra(tables: &GeneratedTables) -> (r: String)
    ensures
        r@ == extra_text(
            tables.newtypes@.map_values(|e: (String, String)| (e.0@, e.1@)),
            string_table_view(tables.ie_ids@),
            string_table_view(tables.procedure_codes@),
            strings_view(tables.initiating),
            strings_view(tables.successful),
            strings_view(tables.unsuccessful),
        ),
{
    let ghost ns = tables.newtypes@.map_values(|e: (String, String)| (e.0@, e.1@));
    let ghost ids = string_table_view(tables.ie_ids@);
    let ghost codes = string_table_view(tables.procedure_codes@);
    let mut s = String::new();
    s.append(FROM_HEADER);

    let ghost start = s@;
    let mut i: usize = 0;
    while i < tables.newtypes.len()
        invariant
            i <= tables.newtypes@.len(),
            ns == tables.newtypes@.map_values(|e: (String, String)| (e.0@, e.1@)),
            s@ == start + from_impls(ns.take(i as int)),
        decreases tables.newtypes@.len() - i,
    {
        let name = tables.newtypes[i].0.as_str();
        let inner = tables.newtypes[i].1.as_str();
        assert(ns.take(i + 1).drop_last() =~= ns.take(i as int));
        assert(ns.take(i + 1).last() == (name@, inner@));
        s.append("impl From<");
        s.append(inner);
        s.append("> for ");
        s.append(name);
        s.append(" { fn from(v: ");
        s.append(inner);
        s.append(") -> Self { ");
        s.append(name);
        s.append("(v) } }\n");
        i = i + 1;
        assert(s@ =~= start + from_impls(ns.take(i as int)));
    }
    assert(ns.take(ns.len() as int) =~= ns);

    s.append(IE_ID_HEADER);
    let ghost start = s@;
    let mut i: usize = 0;
    while i < tables.ie_ids.len()
        invariant
            i <= tables.ie_ids@.len(),
            ids == string_table_view(tables.ie_ids@),
            s@ == start + ie_id_arms(ids.take(i as int)),
        decreases tables.ie_ids@.len() - i,
    {
        let name = tables.ie_ids[i].0.as_str();
        let key = tables.ie_ids[i].1;
        assert(ids.take(i + 1).drop_last() =~= ids.take(i as int));
        assert(ids.take(i + 1).last() == (name@, key));
        s.append("    (");
        s.append(name);
        s.append(") => { ");
        push_decimal(&mut s, key as u32);
        s.append("u16");
        s.append(" };\n");
        i = i + 1;
        assert(s@ =~= start + ie_id_arms(ids.take(i as int)));
    }
    assert(ids.take(ids.len() as int) =~= ids);
    s.append(MACRO_END);

    s.append(PROC_CODE_HEADER);
    let ghost start = s@;
    let mut i: usize = 0;
    while i < tables.procedure_codes.len()
        invariant
            i <= tables.procedure_codes@.len(),
            codes == string_table_view(tables.procedure_codes@),
            s@ == start + proc_code_arms(codes.take(i as int)),
        decreases tables.procedure_codes@.len() - i,
    {
        let name = tables.procedure_codes[i].0.as_str();
        let code = tables.procedure_codes[i].1;
        assert(codes.take(i + 1).drop_last() =~= codes.take(i as int));
        assert(codes.take(i + 1).last() == (name@, code));
        s.append("    (");
        s.append(name);
        s.append(") => { ");
        push_decimal(&mut s, code as u32);
        s.append("u8");
        s.append(" };\n");
        i = i + 1;
        assert(s@ =~= start + proc_code_arms(codes.take(i as int)));
    }
    assert(codes.take(codes.len() as int) =~= codes);
    s.append(MACRO_END);

    s.append(INSPECTION_HEAD);
    push_direction_names(&mut s, INITIATING, &tables.initiating);
    push_direction_names(&mut s, SUCCESSFUL, &tables.successful);
    push_direction_names(&mut s, UNSUCCESSFUL, &tables.unsuccessful);
    s.append(INSPECTION_TAIL);
    s.append(DISPLAY_IMPL);
    s
}

/// The code written from the tables `t`.
pub open spec fn tables_text(t: GeneratedTables) -> Seq<char> {
    extra_text(
        t.newtypes@.map_values(|e: (String, String)| (e.0@, e.1@)),
        string_table_view(t.ie_ids@),
        string_table_view(t.procedure_codes@),
        strings_view(t.initiating),
        strings_view(t.successful),
        strings_view(t.unsuccessful),
    )
}

/// The code that the build step appends to the generated module `content`:
/// the scan of `content`, written out; `KeyOutOfRange` when the scan fails.
pub fn extra_for(content: &str) -> (r: Result<String, ScanError>)
    ensures
        match (ie_scan(text_lines(content@)), proc_scan(text_lines(content@))) {
            (Some(ie), Some(pc)) => r matches Ok(s) && exists|t: GeneratedTables|
                #[trigger] t.describe(content@, ie, pc) && s@ == tables_text(t),
            _ => r == Err::<String, ScanError>(ScanError::KeyOutOfRange),
        },
{
    match scan_generated(content) {
        Ok(t) => {
            let s = render_extra(&t);
            assert(s@ == tables_text(t));
            Ok(s)
        },
        Err(e) => Err(e),
    }
}

} // verus!
