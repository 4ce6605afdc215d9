//! Scanning the generated NGAP code: two line-by-line state machines, one
//! that reads the IE identifier of each protocol IE variant and one that
//! reads the procedure code of each procedure and the procedures of each
//! PDU direction.
//!
//! In an IE value enum (or a direction enum), a key attribute sets the
//! pending key, and a variant line takes the pending key, if there is one,
//! as its identifier (the first identifier given for a name is kept) and
//! clears it. A line that starts with `}` closes the enum and clears the
//! pending key. A key that does not fit in a `u16` fails the scan.
use crate::codegen::{
    direction_line, entry_enum_line, find_direction, find_key_digits, find_newtype,
    find_variant_name, is_entry_enum_line, key_digits, key_value, newtype_of, parse_key,
    variant_name, Direction, Literals,
};
use crate::table::{
    entries_view, insert_first, lists_map, names_sorted, names_view, sorted_insert,
    table_insert_first,
};
use crate::lexical::{all_in_class, class_end, in_class, lemma_class_end, CharClass};
use crate::text::{chars_of, lines_of, split_lines, split_nl, string_of, sub_chars, text_lines};
use vstd::prelude::*;

verus! {

broadcast use vstd::seq_lib::group_to_multiset_ensures;

/// The line closes the enum it is in: it starts with `}`.
pub open spec fn closes_enum(l: Seq<char>) -> bool {
    l.len() > 0 && l[0] == '}'
}

/// The pending key after a line: the key of its key attribute if it has
/// one, else the key pending before. `None` when the attribute's key does
/// not fit in a `u16`.
pub open spec fn pending_after(pending: Option<u16>, l: Seq<char>) -> Option<Option<u16>> {
    match key_digits(l) {
        None => Some(pending),
        Some(d) => match key_value(d) {
            Some(k) => Some(Some(k)),
            None => None,
        },
    }
}

/// The state of the IE identifier scan.
pub struct IeScan {
    /// Inside an IE value enum.
    pub in_enum: bool,
    /// The key read last, not yet taken by a variant.
    pub pending: Option<u16>,
    /// The identifier of each variant name.
    pub ids: Map<Seq<char>, u16>,
}

/// The IE identifier scan before the first line.
pub open spec fn ie_start() -> IeScan {
    IeScan { in_enum: false, pending: None, ids: Map::empty() }
}

/// One line of the IE identifier scan; `None` when the line fails it.
pub open spec fn ie_step(st: IeScan, l: Seq<char>) -> Option<IeScan> {
    if entry_enum_line(l) {
        Some(IeScan { in_enum: true, pending: st.pending, ids: st.ids })
    } else if !st.in_enum {
        Some(st)
    } else if closes_enum(l) {
        Some(IeScan { in_enum: false, pending: None, ids: st.ids })
    } else {
        match pending_after(st.pending, l) {
            None => None,
            Some(p) => match (variant_name(l), p) {
                (Some(n), Some(k)) => Some(
                    IeScan { in_enum: true, pending: None, ids: insert_first(st.ids, n, k) },
                ),
                _ => Some(IeScan { in_enum: true, pending: p, ids: st.ids }),
            },
        }
    }
}

/// The IE identifier scan over the lines, in order; `None` when a line
/// fails it.
pub open spec fn ie_scan(lines: Seq<Seq<char>>) -> Option<IeScan>
    decreases lines.len(),
{
    if lines.len() == 0 {
        Some(ie_start())
    } else {
        match ie_scan(lines.drop_last()) {
            None => None,
            Some(st) => ie_step(st, lines.last()),
        }
    }
}

/// Once a line fails the IE identifier scan, the scan of every longer
/// run of lines fails.
proof fn lemma_ie_scan_fails(ls: Seq<Seq<char>>, k: int, n: int)
    requires
        0 <= k <= n <= ls.len(),
        ie_scan(ls.take(k)) is None,
    ensures
        ie_scan(ls.take(n)) is None,
    decreases n - k,
{
    if n > k {
        lemma_ie_scan_fails(ls, k, n - 1);
        assert(ls.take(n).drop_last() =~= ls.take(n - 1));
    }
}

/// The identifier of each IE variant, in name order; `None` when a key does
/// not fit in a `u16`.
pub(crate) fn scan_ie_ids(lines: &Vec<Vec<char>>, lits: &Literals) -> (r: Option<
    Vec<(Vec<char>, u16)>,
>)
    requires
        lits.wf(),
    ensures
        match ie_scan(names_view(lines@)) {
            None => r is None,
            Some(st) => r matches Some(t) && lists_map(entries_view(t@), st.ids),
        },
{
    let ghost ls = names_view(lines@);
    let mut table: Vec<(Vec<char>, u16)> = Vec::new();
    let mut in_enum = false;
    let mut pending: Option<u16> = None;
    let ghost mut st = ie_start();
    assert(ls.take(0) =~= Seq::<Seq<char>>::empty());
    let mut i: usize = 0;
    while i < lines.len()
        invariant
            i <= lines@.len(),
            lits.wf(),
            ls == names_view(lines@),
            ie_scan(ls.take(i as int)) == Some(st),
            in_enum == st.in_enum,
            pending == st.pending,
            lists_map(entries_view(table@), st.ids),
        decreases lines@.len() - i,
    {
        let line = &lines[i];
        assert(ls.take(i + 1).drop_last() =~= ls.take(i as int));
        assert(ls.take(i + 1).last() == line@);
        if is_entry_enum_line(line, lits) {
            in_enum = true;
            proof {
                st = IeScan { in_enum: true, pending: st.pending, ids: st.ids };
            }
        } else if in_enum {
            if line.len() > 0 && line[0] == '}' {
                in_enum = false;
                pending = None;
                proof {
                    st = IeScan { in_enum: false, pending: None, ids: st.ids };
                }
            } else {
                if let Some((from, to)) = find_key_digits(line, lits) {
                    match parse_key(line, from, to) {
                        Some(k) => {
                            pending = Some(k);
                        },
                        None => {
                            proof {
                                lemma_ie_scan_fails(ls, i + 1, ls.len() as int);
                                assert(ls.take(ls.len() as int) =~= ls);
                            }
                            return None;
                        },
                    }
                }
                assert(pending_after(st.pending, line@) == Some(pending));
                match find_variant_name(line, lits) {
                    Some((from, to)) => {
                        if let Some(k) = pending {
                            let name = sub_chars(line, from, to);
                            table_insert_first(&mut table, name, k, Ghost(st.ids));
                            pending = None;
                            proof {
                                st = IeScan {
                                    in_enum: true,
                                    pending: None,
                                    ids: insert_first(st.ids, name@, k),
                                };
                            }
                        } else {
                            proof {
                                st = IeScan { in_enum: true, pending: pending, ids: st.ids };
                            }
                        }
                    },
                    None => {
                        proof {
                            st = IeScan { in_enum: true, pending: pending, ids: st.ids };
                        }
                    },
                }
            }
        }
        i = i + 1;
    }
    assert(ls.take(lines@.len() as int) =~= ls);
    Some(table)
}

/// The state of the procedure code scan.
pub struct ProcScan {
    /// Inside a direction enum.
    pub in_enum: bool,
    /// The direction of the enum opened last.
    pub current: Option<Direction>,
    /// The key read last, not yet taken by a variant.
    pub pending: Option<u16>,
    /// The procedure code of each procedure name: its key cut to a byte
    /// (`key as u8`).
    pub codes: Map<Seq<char>, u8>,
    /// The procedures of each direction whose enum was opened, in the order
    /// read, repeats kept.
    pub procedures: Map<Direction, Seq<Seq<char>>>,
}

/// The procedure code scan before the first line.
pub open spec fn proc_start() -> ProcScan {
    ProcScan {
        in_enum: false,
        current: None,
        pending: None,
        codes: Map::empty(),
        procedures: Map::empty(),
    }
}

/// The procedures read for direction `d`, none if its enum was not opened.
pub open spec fn procedures_of(m: Map<Direction, Seq<Seq<char>>>, d: Direction) -> Seq<Seq<char>> {
    if m.contains_key(d) {
        m[d]
    } else {
        Seq::empty()
    }
}

/// One line of the procedure code scan; `None` when the line fails it.
pub open spec fn proc_step(st: ProcScan, l: Seq<char>) -> Option<ProcScan> {
    match direction_line(l) {
        Some(d) => Some(
            ProcScan {
                in_enum: true,
                current: Some(d),
                pending: st.pending,
                codes: st.codes,
                procedures: st.procedures.insert(d, procedures_of(st.procedures, d)),
            },
        ),
        None => if !st.in_enum {
            Some(st)
        } else if closes_enum(l) {
            Some(ProcScan { in_enum: false, pending: None, ..st })
        } else {
            match pending_after(st.pending, l) {
                None => None,
                Some(p) => match (variant_name(l), p) {
                    (Some(n), Some(k)) => Some(
                        ProcScan {
                            in_enum: true,
                            current: st.current,
                            pending: None,
                            codes: insert_first(st.codes, n, k as u8),
                            procedures: match st.current {
                                Some(d) => st.procedures.insert(
                                    d,
                                    procedures_of(st.procedures, d).push(n),
                                ),
                                None => st.procedures,
                            },
                        },
                    ),
                    _ => Some(ProcScan { pending: p, ..st }),
                },
            }
        },
    }
}

/// The procedure code scan over the lines, in order; `None` when a line
/// fails it.
pub open spec fn proc_scan(lines: Seq<Seq<char>>) -> Option<ProcScan>
    decreases lines.len(),
{
    if lines.len() == 0 {
        Some(proc_start())
    } else {
        match proc_scan(lines.drop_last()) {
            None => None,
            Some(st) => proc_step(st, lines.last()),
        }
    }
}

/// Once a line fails the procedure code scan, the scan of every longer run
/// of lines fails.
proof fn lemma_proc_scan_fails(ls: Seq<Seq<char>>, k: int, n: int)
    requires
        0 <= k <= n <= ls.len(),
        proc_scan(ls.take(k)) is None,
    ensures
        proc_scan(ls.take(n)) is None,
    decreases n - k,
{
    if n > k {
        lemma_proc_scan_fails(ls, k, n - 1);
        assert(ls.take(n).drop_last() =~= ls.take(n - 1));
    }
}

/// The procedures of a direction, each taken by its characters.
pub open spec fn slot_view(slot: Option<Vec<Vec<char>>>) -> Option<Seq<Seq<char>>> {
    match slot {
        Some(v) => Some(names_view(v@)),
        None => None,
    }
}

/// `slot` holds, sorted, the procedures that `m` gives direction `d`, and
/// nothing when the direction's enum was not opened.
pub open spec fn slot_sorts(
    slot: Option<Seq<Seq<char>>>,
    m: Map<Direction, Seq<Seq<char>>>,
    d: Direction,
) -> bool {
    match slot {
        None => !m.contains_key(d),
        Some(v) => m.contains_key(d) && names_sorted(v) && v.to_multiset() == m[d].to_multiset(),
    }
}

/// The procedures of a direction once its enum is opened.
fn open_slot(slot: Option<Vec<Vec<char>>>) -> (r: Option<Vec<Vec<char>>>)
    ensures
        r is Some,
        slot is Some ==> r == slot,
        slot is None ==> (r matches Some(v) && names_view(v@) == Seq::<Seq<char>>::empty()),
{
    match slot {
        Some(v) => Some(v),
        None => {
            let v: Vec<Vec<char>> = Vec::new();
            assert(names_view(v@) =~= Seq::<Seq<char>>::empty());
            Some(v)
        },
    }
}

/// The procedures of a direction with one more.
fn add_to_slot(slot: Option<Vec<Vec<char>>>, name: Vec<char>) -> (r: Option<Vec<Vec<char>>>)
    requires
        slot matches Some(v) ==> names_sorted(names_view(v@)),
    ensures
        r matches Some(v) && names_sorted(names_view(v@)) && names_view(v@).to_multiset() == (
        match slot {
            Some(w) => names_view(w@).to_multiset(),
            None => Seq::<Seq<char>>::empty().to_multiset(),
        }).insert(name@),
{
    let mut v = match slot {
        Some(v) => v,
        None => Vec::new(),
    };
    proof {
        if slot is None {
            assert(names_view(v@) =~= Seq::<Seq<char>>::empty());
        }
    }
    sorted_insert(&mut v, name);
    Some(v)
}

/// The sorted procedures of the three directions, and the procedure codes.
pub(crate) struct ProcTables {
    pub(crate) codes: Vec<(Vec<char>, u8)>,
    pub(crate) initiating: Option<Vec<Vec<char>>>,
    pub(crate) successful: Option<Vec<Vec<char>>>,
    pub(crate) unsuccessful: Option<Vec<Vec<char>>>,
}

impl ProcTables {
    /// The tables hold what the scan state `st` read.
    pub(crate) open spec fn reflects(&self, st: ProcScan) -> bool {
        &&& lists_map(entries_view(self.codes@), st.codes)
        &&& slot_sorts(slot_view(self.initiating), st.procedures, Direction::InitiatingMessage)
        &&& slot_sorts(slot_view(self.successful), st.procedures, Direction::SuccessfulOutcome)
        &&& slot_sorts(slot_view(self.unsuccessful), st.procedures, Direction::UnsuccessfulOutcome)
    }
}

/// The procedure code of each procedure and the procedures of each
/// direction; `None` when a key does not fit in a `u16`.
pub(crate) fn scan_procedures(lines: &Vec<Vec<char>>, lits: &Literals) -> (r: Option<ProcTables>)
    requires
        lits.wf(),
    ensures
        match proc_scan(names_view(lines@)) {
            None => r is None,
            Some(st) => r matches Some(t) && t.reflects(st),
        },
{
    let ghost ls = names_view(lines@);
    let mut codes: Vec<(Vec<char>, u8)> = Vec::new();
    let mut initiating: Option<Vec<Vec<char>>> = None;
    let mut successful: Option<Vec<Vec<char>>> = None;
    let mut unsuccessful: Option<Vec<Vec<char>>> = None;
    let mut in_enum = false;
    let mut current: Option<Direction> = None;
    let mut pending: Option<u16> = None;
    let ghost mut st = proc_start();
    assert(ls.take(0) =~= Seq::<Seq<char>>::empty());
    let mut i: usize = 0;
    while i < lines.len()
        invariant
            i <= lines@.len(),
            lits.wf(),
            ls == names_view(lines@),
            proc_scan(ls.take(i as int)) == Some(st),
            in_enum == st.in_enum,
            current == st.current,
            pending == st.pending,
            (ProcTables { codes, initiating, successful, unsuccessful }).reflects(st),
        decreases lines@.len() - i,
    {
        let line = &lines[i];
        assert(ls.take(i + 1).drop_last() =~= ls.take(i as int));
        assert(ls.take(i + 1).last() == line@);
        let ghost m = st.procedures;
        match find_direction(line, lits) {
            Some(d) => {
                in_enum = true;
                current = Some(d);
                match d {
                    Direction::InitiatingMessage => {
                        initiating = open_slot(initiating);
                    },
                    Direction::SuccessfulOutcome => {
                        successful = open_slot(successful);
                    },
                    Direction::UnsuccessfulOutcome => {
                        unsuccessful = open_slot(unsuccessful);
                    },
                }
                proof {
                    st = ProcScan {
                        in_enum: true,
                        current: Some(d),
                        pending: st.pending,
                        codes: st.codes,
                        procedures: m.insert(d, procedures_of(m, d)),
                    };
                }
            },
            None => {
                if in_enum {
                    if line.len() > 0 && line[0] == '}' {
                        in_enum = false;
                        pending = None;
                        proof {
                            st = ProcScan { in_enum: false, pending: None, ..st };
                        }
                    } else {
                        if let Some((from, to)) = find_key_digits(line, lits) {
                            match parse_key(line, from, to) {
                                Some(k) => {
                                    pending = Some(k);
                                },
                                None => {
                                    proof {
                                        lemma_proc_scan_fails(ls, i + 1, ls.len() as int);
                                        assert(ls.take(ls.len() as int) =~= ls);
                                    }
                                    return None;
                                },
                            }
                        }
                        assert(pending_after(st.pending, line@) == Some(pending));
                        match (find_variant_name(line, lits), pending) {
                            (Some((from, to)), Some(k)) => {
                                let name = sub_chars(line, from, to);
                                let ghost nm = name@;
                                let name2 = sub_chars(line, from, to);
                                table_insert_first(&mut codes, name, k as u8, Ghost(st.codes));
                                match current {
                                    Some(Direction::InitiatingMessage) => {
                                        initiating = add_to_slot(initiating, name2);
                                    },
                                    Some(Direction::SuccessfulOutcome) => {
                                        successful = add_to_slot(successful, name2);
                                    },
                                    Some(Direction::UnsuccessfulOutcome) => {
                                        unsuccessful = add_to_slot(unsuccessful, name2);
                                    },
                                    None => {},
                                }
                                pending = None;
                                proof {
                                    st = ProcScan {
                                        in_enum: true,
                                        current: st.current,
                                        pending: None,
                                        codes: insert_first(st.codes, nm, k as u8),
                                        procedures: match st.current {
                                            Some(d) => m.insert(d, procedures_of(m, d).push(nm)),
                                            None => m,
                                        },
                                    };
                                }
                            },
                            _ => {
                                proof {
                                    st = ProcScan { pending: pending, ..st };
                                }
                            },
                        }
                    }
                }
            },
        }
        i = i + 1;
    }
    assert(ls.take(lines@.len() as int) =~= ls);
    Some(ProcTables { codes, initiating, successful, unsuccessful })
}

// ── Newtypes ────────────────────────────────────────────────────────────────

/// A newtype gets a `From` impl unless its field type holds a `,` and no
/// `<` (a tuple of several fields rather than one generic type).
pub open spec fn takes_from_impl(inner: Seq<char>) -> bool {
    !(inner.contains(',') && !inner.contains('<'))
}

/// The newtypes that get a `From` impl, with their field types, in the
/// order of the pieces (lines between line feeds) that declare them.
pub open spec fn newtype_list(ps: Seq<Seq<char>>) -> Seq<(Seq<char>, Seq<char>)>
    decreases ps.len(),
{
    if ps.len() == 0 {
        Seq::empty()
    } else {
        let prev = newtype_list(ps.drop_last());
        match newtype_of(ps.last()) {
            Some((n, t)) => if takes_from_impl(t) {
                prev.push((n, t))
            } else {
                prev
            },
            None => prev,
        }
    }
}

/// A line `pub struct NAME(pub INNER);` (NAME one or more word characters,
/// INNER one or more characters) gives the newtype `(NAME, INNER)` and a
/// `From` impl for it, unless INNER holds a `,` and no `<`: a field type
/// without a comma, or with a generic `<`, is always taken.
pub proof fn lemma_newtype_line(name: Seq<char>, inner: Seq<char>)
    requires
        name.len() > 0,
        all_in_class(name, 0, name.len() as int, CharClass::Word),
        inner.len() > 0,
    ensures
        ({
            let line = "pub struct "@ + name + "(pub "@ + inner + ");"@;
            &&& newtype_of(line) == Some((name, inner))
            &&& !inner.contains(',') ==> newtype_list(seq![line]) == seq![(name, inner)]
            &&& inner.contains('<') ==> newtype_list(seq![line]) == seq![(name, inner)]
            &&& (inner.contains(',') && !inner.contains('<')) ==> newtype_list(seq![line])
                == Seq::<(Seq<char>, Seq<char>)>::empty()
        }),
{
    reveal_strlit("pub struct ");
    reveal_strlit("(pub ");
    reveal_strlit(");");
    let p = "pub struct "@;
    let f = "(pub "@;
    let z = ");"@;
    let line = p + name + f + inner + z;
    let nl = name.len() as int;
    let e = 11 + nl;
    assert(line.subrange(0, 11) =~= p);
    assert(line.subrange(11, e) =~= name);
    assert(line.subrange(e, e + 5) =~= f);
    assert(line.subrange(e + 5, line.len() - 2) =~= inner);
    assert(line.subrange(line.len() - 2, line.len() as int) =~= z);
    lemma_class_end(line, 11, CharClass::Word);
    assert(all_in_class(line, 11, e, CharClass::Word)) by {
        assert forall|t: int| 11 <= t < e implies in_class(CharClass::Word, #[trigger] line[t]) by {
            assert(line[t] == name[t - 11]);
        }
    }
    assert(line[e] == '(');
    assert(!all_in_class(line, 11, e + 1, CharClass::Word));
    assert(class_end(line, 11, CharClass::Word) == e);
    assert(newtype_of(line) == Some((name, inner)));
    assert(seq![line].drop_last() =~= Seq::<Seq<char>>::empty());
    assert(seq![line].last() == line);
    assert(newtype_list(Seq::<Seq<char>>::empty()) == Seq::<(Seq<char>, Seq<char>)>::empty());
    assert(Seq::<(Seq<char>, Seq<char>)>::empty().push((name, inner)) =~= seq![(name, inner)]);
}

/// Tests whether `c` occurs in `l[from..to]`.
fn occurs_in(l: &Vec<char>, from: usize, to: usize, c: char) -> (r: bool)
    requires
        from <= to <= l@.len(),
    ensures
        r == l@.subrange(from as int, to as int).contains(c),
{
    let ghost sub = l@.subrange(from as int, to as int);
    let mut i = from;
    while i < to
        invariant
            from <= i <= to <= l@.len(),
            sub == l@.subrange(from as int, to as int),
            forall|k: int| 0 <= k < i - from ==> sub[k] != c,
        decreases to - i,
    {
        if l[i] == c {
            assert(sub[i - from] == c);
            return true;
        }
        i = i + 1;
    }
    false
}

/// The names and field types of the newtypes that get a `From` impl.
fn scan_newtypes(pieces: &Vec<Vec<char>>, lits: &Literals) -> (r: Vec<(String, String)>)
    requires
        lits.wf(),
    ensures
        r@.map_values(|e: (String, String)| (e.0@, e.1@)) == newtype_list(names_view(pieces@)),
{
    let ghost ps = names_view(pieces@);
    let mut r: Vec<(String, String)> = Vec::new();
    let mut i: usize = 0;
    assert(ps.take(0) =~= Seq::<Seq<char>>::empty());
    while i < pieces.len()
        invariant
            i <= pieces@.len(),
            lits.wf(),
            ps == names_view(pieces@),
            r@.map_values(|e: (String, String)| (e.0@, e.1@)) == newtype_list(ps.take(i as int)),
        decreases pieces@.len() - i,
    {
        let p = &pieces[i];
        assert(ps.take(i + 1).drop_last() =~= ps.take(i as int));
        assert(ps.take(i + 1).last() == p@);
        let ghost prev = r@.map_values(|e: (String, String)| (e.0@, e.1@));
        if let Some((a, b, c, d)) = find_newtype(p, lits) {
            let has_comma = occurs_in(p, c, d, ',');
            let has_angle = occurs_in(p, c, d, '<');
            if !(has_comma && !has_angle) {
                let name = string_of(p, a, b);
                let inner = string_of(p, c, d);
                r.push((name, inner));
                assert(r@.map_values(|e: (String, String)| (e.0@, e.1@)) =~= prev.push(
                    (name@, inner@),
                ));
            }
        }
        i = i + 1;
    }
    assert(ps.take(pieces@.len() as int) =~= ps);
    r
}

// ── The whole scan ──────────────────────────────────────────────────────────

/// A key attribute's key does not fit in a `u16`.
#[derive(Debug, PartialEq, Eq, Structural)]
pub enum ScanError {
    KeyOutOfRange,
}

/// What the build step derives from the generated code.
pub struct GeneratedTables {
    /// The name and field type of each newtype that gets a `From` impl, in
    /// the order of the code.
    pub newtypes: Vec<(String, String)>,
    /// The IE identifier of each IE variant, one entry per name, in name
    /// order.
    pub ie_ids: Vec<(String, u16)>,
    /// The procedure code of each procedure, one entry per name, in name
    /// order.
    pub procedure_codes: Vec<(String, u8)>,
    /// The procedures of the initiating message enum, sorted; `None` when
    /// the code has no such enum.
    pub initiating: Option<Vec<String>>,
    /// The procedures of the successful outcome enum, sorted.
    pub successful: Option<Vec<String>>,
    /// The procedures of the unsuccessful outcome enum, sorted.
    pub unsuccessful: Option<Vec<String>>,
}

/// A table's names and values, each name taken by its characters.
pub open spec fn string_table_view<K>(t: Seq<(String, K)>) -> Seq<(Seq<char>, K)> {
    t.map_values(|e: (String, K)| (e.0@, e.1))
}

/// A list of names, each taken by its characters.
pub open spec fn strings_view(v: Option<Vec<String>>) -> Option<Seq<Seq<char>>> {
    match v {
        Some(v) => Some(v@.map_values(|s: String| s@)),
        None => None,
    }
}

impl GeneratedTables {
    /// The tables hold what the scans read from the text `content`.
    pub open spec fn describe(&self, content: Seq<char>, ie: IeScan, pc: ProcScan) -> bool {
        &&& self.newtypes@.map_values(|e: (String, String)| (e.0@, e.1@)) == newtype_list(
            split_nl(content),
        )
        &&& lists_map(string_table_view(self.ie_ids@), ie.ids)
        &&& lists_map(string_table_view(self.procedure_codes@), pc.codes)
        &&& slot_sorts(strings_view(self.initiating), pc.procedures, Direction::InitiatingMessage)
        &&& slot_sorts(strings_view(self.successful), pc.procedures, Direction::SuccessfulOutcome)
        &&& slot_sorts(
            strings_view(self.unsuccessful),
            pc.procedures,
            Direction::UnsuccessfulOutcome,
        )
    }
}

/// A table with its names as strings.
fn string_table<K: Copy>(t: &Vec<(Vec<char>, K)>) -> (r: Vec<(String, K)>)
    ensures
        string_table_view(r@) == entries_view(t@),
{
    let mut r: Vec<(String, K)> = Vec::new();
    let mut i: usize = 0;
    while i < t.len()
        invariant
            i <= t@.len(),
            string_table_view(r@) == entries_view(t@).take(i as int),
        decreases t@.len() - i,
    {
        let name = string_of(&t[i].0, 0, t[i].0.len());
        assert(t[i as int].0@.subrange(0, t[i as int].0@.len() as int) =~= t[i as int].0@);
        let ghost prev = string_table_view(r@);
        r.push((name, t[i].1));
        assert(string_table_view(r@) =~= prev.push((name@, t@[i as int].1)));
        i = i + 1;
        assert(string_table_view(r@) =~= entries_view(t@).take(i as int));
    }
    assert(entries_view(t@).take(t@.len() as int) =~= entries_view(t@));
    r
}

/// A list of names as strings.
fn string_list(v: &Option<Vec<Vec<char>>>) -> (r: Option<Vec<String>>)
    ensures
        strings_view(r) == slot_view(*v),
{
    match v {
        None => None,
        Some(v) => {
            let mut r: Vec<String> = Vec::new();
            let mut i: usize = 0;
            while i < v.len()
                invariant
                    i <= v@.len(),
                    r@.map_values(|s: String| s@) == names_view(v@).take(i as int),
                decreases v@.len() - i,
            {
                let name = string_of(&v[i], 0, v[i].len());
                assert(v[i as int]@.subrange(0, v[i as int]@.len() as int) =~= v[i as int]@);
                let ghost prev = r@.map_values(|s: String| s@);
                r.push(name);
                assert(r@.map_values(|s: String| s@) =~= prev.push(name@));
                i = i + 1;
                assert(r@.map_values(|s: String| s@) =~= names_view(v@).take(i as int));
            }
            assert(names_view(v@).take(v@.len() as int) =~= names_view(v@));
            Some(r)
        },
    }
}

/// Scan the generated NGAP code for what the build step adds to it: the
/// newtypes that get a `From` impl, the IE identifier of each IE variant,
/// the procedure code of each procedure and the procedures of each
/// direction. Fails with `KeyOutOfRange` when a key attribute that either
/// scan reads holds a number too large for a `u16`.
pub fn scan_generated(content: &str) -> (r: Result<GeneratedTables, ScanError>)
    ensures
        match (ie_scan(text_lines(content@)), proc_scan(text_lines(content@))) {
            (Some(ie), Some(pc)) => r matches Ok(t) && t.describe(content@, ie, pc),
            _ => r == Err::<GeneratedTables, ScanError>(ScanError::KeyOutOfRange),
        },
{
    let lits = Literals::new();
    let cs = chars_of(content);
    let pieces = split_lines(&cs);
    assert(names_view(pieces@) == split_nl(content@));
    let lines = lines_of(&pieces, Ghost(content@));
    assert(names_view(lines@) == text_lines(content@));
    let newtypes = scan_newtypes(&pieces, &lits);
    let ie = match scan_ie_ids(&lines, &lits) {
        Some(t) => t,
        None => {
            return Err(ScanError::KeyOutOfRange);
        },
    };
    let pc = match scan_procedures(&lines, &lits) {
        Some(t) => t,
        None => {
            return Err(ScanError::KeyOutOfRange);
        },
    };
    Ok(
        GeneratedTables {
            newtypes,
            ie_ids: string_table(&ie),
            procedure_codes: string_table(&pc.codes),
            initiating: string_list(&pc.initiating),
            successful: string_list(&pc.successful),
            unsuccessful: string_list(&pc.unsuccessful),
        },
    )
}

} // verus!
