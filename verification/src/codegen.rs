//! The rules by which the build step reads the Rust code that the ASN.1
//! compiler generates for NGAP, and derives from it what it adds to that
//! code: a `From` impl for each single-field newtype, the IE identifier of
//! each protocol IE variant, the procedure code of each procedure, and the
//! procedures of each PDU direction.
//!
//! The generated code is read line by line. Its lines are recognized by
//! these shapes (word characters are ASCII letters, digits and `_`; spaces
//! are ASCII whitespace; digits are ASCII digits):
//! - newtype: `pub struct NAME(pub INNER);`, the whole line;
//! - IE value enum: `pub enum ` and a word ending in
//!   `ProtocolIEs_EntryValue`, anywhere in the line;
//! - direction enum: `pub enum InitiatingMessageValue` (or
//!   `SuccessfulOutcomeValue`, `UnsuccessfulOutcomeValue`), anywhere;
//! - key attribute: `#[asn(key = ` followed by digits, leftmost occurrence;
//! - variant: spaces, `Id_`, a word, then `(`, at the start of the line.
use crate::lexical::{
    char_in_class, class_end, class_end_at, in_class, lemma_class_end, lit_at, lit_at_exec,
    CharClass,
};
use crate::text::chars_of;
use vstd::prelude::*;

verus! {

// ── Line shapes ─────────────────────────────────────────────────────────────

/// The direction of an NGAP PDU.
#[derive(Debug, Clone, Copy, PartialEq, Eq, Structural)]
pub enum Direction {
    InitiatingMessage,
    SuccessfulOutcome,
    UnsuccessfulOutcome,
}

pub open spec fn pub_enum_lit() -> Seq<char> {
    "pub enum "@
}

pub open spec fn entry_value_lit() -> Seq<char> {
    "ProtocolIEs_EntryValue"@
}

pub open spec fn asn_key_lit() -> Seq<char> {
    "#[asn(key = "@
}

pub open spec fn id_prefix_lit() -> Seq<char> {
    "Id_"@
}

pub open spec fn initiating_value_lit() -> Seq<char> {
    "InitiatingMessageValue"@
}

pub open spec fn successful_value_lit() -> Seq<char> {
    "SuccessfulOutcomeValue"@
}

pub open spec fn unsuccessful_value_lit() -> Seq<char> {
    "UnsuccessfulOutcomeValue"@
}

pub open spec fn pub_struct_lit() -> Seq<char> {
    "pub struct "@
}

pub open spec fn pub_field_lit() -> Seq<char> {
    "(pub "@
}

pub open spec fn tuple_end_lit() -> Seq<char> {
    ");"@
}

/// The lengths of the literals of the line shapes.
proof fn lemma_literal_lengths()
    ensures
        pub_enum_lit().len() == 9,
        entry_value_lit().len() == 22,
        asn_key_lit().len() == 12,
        id_prefix_lit().len() == 3,
        initiating_value_lit().len() == 22,
        successful_value_lit().len() == 22,
        unsuccessful_value_lit().len() == 24,
        pub_struct_lit().len() == 11,
        pub_field_lit().len() == 5,
        tuple_end_lit().len() == 2,
{
    reveal_strlit("pub enum ");
    reveal_strlit("ProtocolIEs_EntryValue");
    reveal_strlit("#[asn(key = ");
    reveal_strlit("Id_");
    reveal_strlit("InitiatingMessageValue");
    reveal_strlit("SuccessfulOutcomeValue");
    reveal_strlit("UnsuccessfulOutcomeValue");
    reveal_strlit("pub struct ");
    reveal_strlit("(pub ");
    reveal_strlit(");");
}

/// The literals of the line shapes, as characters.
pub(crate) struct Literals {
    pub_enum: Vec<char>,
    entry_value: Vec<char>,
    asn_key: Vec<char>,
    id_prefix: Vec<char>,
    initiating_value: Vec<char>,
    successful_value: Vec<char>,
    unsuccessful_value: Vec<char>,
    pub_struct: Vec<char>,
    pub_field: Vec<char>,
    tuple_end: Vec<char>,
}

impl Literals {
    pub(crate) closed spec fn wf(&self) -> bool {
        &&& self.pub_enum@ == pub_enum_lit()
        &&& self.entry_value@ == entry_value_lit()
        &&& self.asn_key@ == asn_key_lit()
        &&& self.id_prefix@ == id_prefix_lit()
        &&& self.initiating_value@ == initiating_value_lit()
        &&& self.successful_value@ == successful_value_lit()
        &&& self.unsuccessful_value@ == unsuccessful_value_lit()
        &&& self.pub_struct@ == pub_struct_lit()
        &&& self.pub_field@ == pub_field_lit()
        &&& self.tuple_end@ == tuple_end_lit()
    }

    pub(crate) fn new() -> (r: Literals)
        ensures
            r.wf(),
    {
        Literals {
            pub_enum: chars_of("pub enum "),
            entry_value: chars_of("ProtocolIEs_EntryValue"),
            asn_key: chars_of("#[asn(key = "),
            id_prefix: chars_of("Id_"),
            initiating_value: chars_of("InitiatingMessageValue"),
            successful_value: chars_of("SuccessfulOutcomeValue"),
            unsuccessful_value: chars_of("UnsuccessfulOutcomeValue"),
            pub_struct: chars_of("pub struct "),
            pub_field: chars_of("(pub "),
            tuple_end: chars_of(");"),
        }
    }
}

/// `pub enum `, one or more word characters, `ProtocolIEs_EntryValue`, at
/// position `i` of `l`.
pub open spec fn entry_enum_at(l: Seq<char>, i: int) -> bool {
    let s = i + pub_enum_lit().len();
    &&& lit_at(l, i, pub_enum_lit())
    &&& exists|j: int|
        s < j <= class_end(l, s, CharClass::Word) && #[trigger] lit_at(l, j, entry_value_lit())
}

/// The line opens an IE value enum.
pub open spec fn entry_enum_line(l: Seq<char>) -> bool {
    exists|i: int| #[trigger] entry_enum_at(l, i)
}

pub(crate) fn is_entry_enum_line(l: &Vec<char>, lits: &Literals) -> (r: bool)
    requires
        lits.wf(),
    ensures
        r == entry_enum_line(l@),
{
    proof {
        lemma_literal_lengths();
    }
    let mut i: usize = 0;
    while i < l.len()
        invariant
            i <= l@.len(),
            lits.wf(),
            forall|k: int| 0 <= k < i ==> !entry_enum_at(l@, k),
        decreases l@.len() - i,
    {
        if lit_at_exec(l, i, &lits.pub_enum) {
            let s = i + lits.pub_enum.len();
            let e = class_end_at(l, s, &CharClass::Word);
            proof {
                lemma_class_end(l@, s as int, CharClass::Word);
            }
            let mut j = s;
            while j < e
                invariant
                    s <= j <= e,
                    e <= l@.len(),
                    s == i + pub_enum_lit().len(),
                    e == class_end(l@, s as int, CharClass::Word),
                    lits.wf(),
                    lit_at(l@, i as int, pub_enum_lit()),
                    forall|k: int| s < k <= j ==> !lit_at(l@, k, entry_value_lit()),
                decreases e - j,
            {
                if lit_at_exec(l, j + 1, &lits.entry_value) {
                    assert(lit_at(l@, j + 1, entry_value_lit()));
                    assert(entry_enum_at(l@, i as int));
                    return true;
                }
                j = j + 1;
            }
        }
        i = i + 1;
    }
    proof {
        assert forall|k: int| !#[trigger] entry_enum_at(l@, k) by {
            if k >= l@.len() {
                assert(!lit_at(l@, k, pub_enum_lit()));
            }
        }
    }
    false
}

/// A key attribute with at least one digit at position `i` of `l`.
pub open spec fn key_at(l: Seq<char>, i: int) -> bool {
    let s = i + asn_key_lit().len();
    lit_at(l, i, asn_key_lit()) && s < l.len() && in_class(CharClass::Digit, l[s])
}

/// The leftmost position at or after `i` where a key attribute starts.
pub open spec fn first_key_from(l: Seq<char>, i: int) -> Option<int>
    decreases l.len() - i,
{
    if i < 0 || i >= l.len() {
        None
    } else if key_at(l, i) {
        Some(i)
    } else {
        first_key_from(l, i + 1)
    }
}

/// The digits of the leftmost key attribute of the line, all of them.
pub open spec fn key_digits(l: Seq<char>) -> Option<Seq<char>> {
    match first_key_from(l, 0) {
        Some(i) => {
            let s = i + asn_key_lit().len();
            Some(l.subrange(s, class_end(l, s, CharClass::Digit)))
        },
        None => None,
    }
}

/// The positions `[from, to)` of the digits of the leftmost key attribute
/// of the line.
pub(crate) fn find_key_digits(l: &Vec<char>, lits: &Literals) -> (r: Option<(usize, usize)>)
    requires
        lits.wf(),
    ensures
        match key_digits(l@) {
            None => r is None,
            Some(d) => r matches Some((from, to)) && from < to <= l@.len() && d == l@.subrange(
                from as int,
                to as int,
            ) && forall|t: int| from <= t < to ==> in_class(CharClass::Digit, #[trigger] l@[t]),
        },
{
    proof {
        lemma_literal_lengths();
    }
    let mut i: usize = 0;
    while i < l.len()
        invariant
            i <= l@.len(),
            lits.wf(),
            first_key_from(l@, i as int) == first_key_from(l@, 0),
        decreases l@.len() - i,
    {
        if lit_at_exec(l, i, &lits.asn_key) {
            let s = i + lits.asn_key.len();
            if s < l.len() && char_in_class(&CharClass::Digit, l[s]) {
                let e = class_end_at(l, s, &CharClass::Digit);
                proof {
                    lemma_class_end(l@, s as int, CharClass::Digit);
                }
                return Some((s, e));
            }
        }
        i = i + 1;
    }
    None
}

/// The name of the variant that the line declares: spaces from the start
/// of the line, `Id_`, the name (one or more word characters), then `(`.
pub open spec fn variant_name(l: Seq<char>) -> Option<Seq<char>> {
    let a = class_end(l, 0, CharClass::Space);
    let s = a + id_prefix_lit().len();
    let e = class_end(l, s, CharClass::Word);
    if a >= 1 && lit_at(l, a, id_prefix_lit()) && s < e < l.len() && l[e] == '(' {
        Some(l.subrange(s, e))
    } else {
        None
    }
}

/// The positions `[from, to)` of the name of the variant that the line
/// declares.
pub(crate) fn find_variant_name(l: &Vec<char>, lits: &Literals) -> (r: Option<(usize, usize)>)
    requires
        lits.wf(),
    ensures
        match variant_name(l@) {
            None => r is None,
            Some(n) => r matches Some((from, to)) && from < to <= l@.len() && n == l@.subrange(
                from as int,
                to as int,
            ),
        },
{
    proof {
        lemma_literal_lengths();
        lemma_class_end(l@, 0, CharClass::Space);
    }
    let a = class_end_at(l, 0, &CharClass::Space);
    if a >= 1 && lit_at_exec(l, a, &lits.id_prefix) {
        let n = l.len();
        assert(a + id_prefix_lit().len() <= n);
        let s = a + lits.id_prefix.len();
        let e = class_end_at(l, s, &CharClass::Word);
        proof {
            lemma_class_end(l@, s as int, CharClass::Word);
        }
        if s < e && e < l.len() && l[e] == '(' {
            return Some((s, e));
        }
    }
    None
}

/// The direction whose enum opens at position `i` of `l`: `pub enum `
/// followed by the direction's name and `Value`.
pub open spec fn direction_at(l: Seq<char>, i: int) -> Option<Direction> {
    let s = i + pub_enum_lit().len();
    if !lit_at(l, i, pub_enum_lit()) {
        None
    } else if lit_at(l, s, initiating_value_lit()) {
        Some(Direction::InitiatingMessage)
    } else if lit_at(l, s, successful_value_lit()) {
        Some(Direction::SuccessfulOutcome)
    } else if lit_at(l, s, unsuccessful_value_lit()) {
        Some(Direction::UnsuccessfulOutcome)
    } else {
        None
    }
}

/// The direction of the leftmost direction enum at or after position `i`.
pub open spec fn first_direction_from(l: Seq<char>, i: int) -> Option<Direction>
    decreases l.len() - i,
{
    if i < 0 || i >= l.len() {
        None
    } else if direction_at(l, i) is Some {
        direction_at(l, i)
    } else {
        first_direction_from(l, i + 1)
    }
}

/// The direction whose enum the line opens, if it opens one.
pub open spec fn direction_line(l: Seq<char>) -> Option<Direction> {
    first_direction_from(l, 0)
}

pub(crate) fn find_direction(l: &Vec<char>, lits: &Literals) -> (r: Option<Direction>)
    requires
        lits.wf(),
    ensures
        r == direction_line(l@),
{
    proof {
        lemma_literal_lengths();
    }
    let mut i: usize = 0;
    while i < l.len()
        invariant
            i <= l@.len(),
            lits.wf(),
            first_direction_from(l@, i as int) == direction_line(l@),
        decreases l@.len() - i,
    {
        if lit_at_exec(l, i, &lits.pub_enum) {
            let s = i + lits.pub_enum.len();
            if lit_at_exec(l, s, &lits.initiating_value) {
                return Some(Direction::InitiatingMessage);
            } else if lit_at_exec(l, s, &lits.successful_value) {
                return Some(Direction::SuccessfulOutcome);
            } else if lit_at_exec(l, s, &lits.unsuccessful_value) {
                return Some(Direction::UnsuccessfulOutcome);
            }
        }
        i = i + 1;
    }
    None
}

/// The name and the field type of a single-field newtype that the whole
/// line declares: `pub struct `, the name (one or more word characters),
/// `(pub `, the field type (one or more characters), and `);` ending the
/// line.
pub open spec fn newtype_of(l: Seq<char>) -> Option<(Seq<char>, Seq<char>)> {
    let s = pub_struct_lit().len() as int;
    let e = class_end(l, s, CharClass::Word);
    let a = e + pub_field_lit().len();
    let z = l.len() - tuple_end_lit().len();
    if lit_at(l, 0, pub_struct_lit()) && s < e && lit_at(l, e, pub_field_lit()) && a < z && lit_at(
        l,
        z,
        tuple_end_lit(),
    ) {
        Some((l.subrange(s, e), l.subrange(a, z)))
    } else {
        None
    }
}

/// The positions of the name and of the field type of the newtype that the
/// line declares.
pub(crate) fn find_newtype(l: &Vec<char>, lits: &Literals) -> (r: Option<(usize, usize, usize, usize)>)
    requires
        lits.wf(),
    ensures
        match newtype_of(l@) {
            None => r is None,
            Some((n, t)) => r matches Some((a, b, c, d)) && a <= b <= c <= d <= l@.len() && n
                == l@.subrange(a as int, b as int) && t == l@.subrange(c as int, d as int),
        },
{
    proof {
        lemma_literal_lengths();
    }
    if !lit_at_exec(l, 0, &lits.pub_struct) || l.len() < 2 {
        return None;
    }
    let s = lits.pub_struct.len();
    let e = class_end_at(l, s, &CharClass::Word);
    proof {
        lemma_class_end(l@, s as int, CharClass::Word);
    }
    let z = l.len() - 2;
    if s < e && lit_at_exec(l, e, &lits.pub_field) {
        let a = e + lits.pub_field.len();
        if a < z && lit_at_exec(l, z, &lits.tuple_end) {
            return Some((s, e, a, z));
        }
    }
    None
}

/// The number that a string of decimal digits writes.
pub open spec fn digits_value(d: Seq<char>) -> nat
    decreases d.len(),
{
    if d.len() == 0 {
        0
    } else {
        10 * digits_value(d.drop_last()) + (d.last() as int - '0' as int) as nat
    }
}

/// The key that a string of digits gives as a `u16` (`str::parse::<u16>`),
/// or `None` when the number is too large for a `u16`.
pub open spec fn key_value(d: Seq<char>) -> Option<u16> {
    if digits_value(d) <= 0xFFFF {
        Some(digits_value(d) as u16)
    } else {
        None
    }
}

/// A longer string of digits writes a number at least as large.
proof fn lemma_digits_value_prefix(d: Seq<char>, k: int)
    requires
        0 <= k <= d.len(),
        forall|t: int| 0 <= t < d.len() ==> in_class(CharClass::Digit, #[trigger] d[t]),
    ensures
        digits_value(d.take(k)) <= digits_value(d),
    decreases d.len(),
{
    if k < d.len() {
        let p = d.drop_last();
        assert(d.take(k) =~= p.take(k));
        assert forall|t: int| 0 <= t < p.len() implies in_class(CharClass::Digit, #[trigger] p[t]) by {
            assert(p[t] == d[t]);
        }
        lemma_digits_value_prefix(p, k);
    } else {
        assert(d.take(k) =~= d);
    }
}

/// Parse the digits `l[from..to]` as a `u16`.
pub(crate) fn parse_key(l: &Vec<char>, from: usize, to: usize) -> (r: Option<u16>)
    requires
        from < to <= l@.len(),
        forall|t: int| from <= t < to ==> in_class(CharClass::Digit, #[trigger] l@[t]),
    ensures
        r == key_value(l@.subrange(from as int, to as int)),
{
    let ghost d = l@.subrange(from as int, to as int);
    proof {
        assert forall|t: int| 0 <= t < d.len() implies in_class(CharClass::Digit, #[trigger] d[t]) by {
            assert(d[t] == l@[from + t]);
        }
    }
    let mut v: u32 = 0;
    let mut i = from;
    assert(d.take(0) =~= Seq::<char>::empty());
    while i < to
        invariant
            from <= i <= to <= l@.len(),
            d == l@.subrange(from as int, to as int),
            forall|t: int| 0 <= t < d.len() ==> in_class(CharClass::Digit, #[trigger] d[t]),
            v == digits_value(d.take(i - from)),
            v <= 0xFFFF,
        decreases to - i,
    {
        let c = l[i];
        assert(c == d[i - from]);
        let digit = (c as u32) - ('0' as u32);
        let next = v * 10 + digit;
        assert(d.take(i + 1 - from).drop_last() =~= d.take(i - from));
        assert(next == digits_value(d.take(i + 1 - from)));
        if next > 0xFFFF {
            proof {
                lemma_digits_value_prefix(d, i + 1 - from);
                assert(d.take(d.len() as int) =~= d);
            }
            return None;
        }
        v = next;
        i = i + 1;
    }
    assert(d.take(to - from) =~= d);
    Some(v as u16)
}

} // verus!
