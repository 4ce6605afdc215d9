//! Character classes, runs of characters, literal matches, and the
//! lexicographic order of character strings (the order of Rust's `String`:
//! by code point).
use vstd::prelude::*;

verus! {

/// The classes of characters that the line patterns of the generated code
/// are made of. Words and digits are ASCII: the generated code is ASCII.
pub enum CharClass {
    /// `A-Z`, `a-z`, `0-9` and `_`.
    Word,
    /// Space, tab, line feed, vertical tab, form feed and carriage return.
    Space,
    /// `0-9`.
    Digit,
}

/// `c` belongs to class `k`.
pub open spec fn in_class(k: CharClass, c: char) -> bool {
    match k {
        CharClass::Word => ('a' <= c <= 'z') || ('A' <= c <= 'Z') || ('0' <= c <= '9') || c == '_',
        CharClass::Space => c == ' ' || c == '\t' || c == '\n' || c == '\x0B' || c == '\x0C' || c
            == '\r',
        CharClass::Digit => '0' <= c <= '9',
    }
}

/// Tests whether `c` belongs to class `k`.
pub fn char_in_class(k: &CharClass, c: char) -> (r: bool)
    ensures
        r == in_class(*k, c),
{
    match k {
        CharClass::Word => ('a' <= c && c <= 'z') || ('A' <= c && c <= 'Z') || ('0' <= c && c
            <= '9') || c == '_',
        CharClass::Space => c == ' ' || c == '\t' || c == '\n' || c == '\x0B' || c == '\x0C' || c
            == '\r',
        CharClass::Digit => '0' <= c && c <= '9',
    }
}

/// The end of the longest run of class-`k` characters of `l` that starts at
/// `from`: the first position at or after `from` that holds no such
/// character.
pub open spec fn class_end(l: Seq<char>, from: int, k: CharClass) -> int
    decreases l.len() - from,
{
    if 0 <= from < l.len() && in_class(k, l[from]) {
        class_end(l, from + 1, k)
    } else {
        from
    }
}

/// Every character of `l[from..to]` is of class `k`.
pub open spec fn all_in_class(l: Seq<char>, from: int, to: int, k: CharClass) -> bool {
    forall|t: int| from <= t < to ==> in_class(k, #[trigger] l[t])
}

/// The run that `class_end` measures is made of class-`k` characters and
/// cannot be extended.
pub proof fn lemma_class_end(l: Seq<char>, from: int, k: CharClass)
    requires
        0 <= from <= l.len(),
    ensures
        from <= class_end(l, from, k) <= l.len(),
        all_in_class(l, from, class_end(l, from, k), k),
        class_end(l, from, k) < l.len() ==> !in_class(k, l[class_end(l, from, k)]),
        forall|to: int|
            from <= to <= l.len() ==> (all_in_class(l, from, to, k) <==> to <= class_end(
                l,
                from,
                k,
            )),
    decreases l.len() - from,
{
    if from < l.len() && in_class(k, l[from]) {
        lemma_class_end(l, from + 1, k);
        assert forall|to: int| from <= to <= l.len() implies (all_in_class(l, from, to, k)
            <==> to <= class_end(l, from, k)) by {
            if to > from {
                assert(all_in_class(l, from, to, k) <==> all_in_class(l, from + 1, to, k));
            }
        }
    } else {
        assert forall|to: int| from <= to <= l.len() implies (all_in_class(l, from, to, k)
            <==> to <= class_end(l, from, k)) by {
            if to > from {
                assert(!in_class(k, l[from]));
            }
        }
    }
}

/// The end of the longest run of class-`k` characters of `l` from `from`.
pub fn class_end_at(l: &Vec<char>, from: usize, k: &CharClass) -> (e: usize)
    requires
        from <= l@.len(),
    ensures
        e == class_end(l@, from as int, *k),
{
    let mut i = from;
    while i < l.len() && char_in_class(k, l[i])
        invariant
            from <= i <= l@.len(),
            class_end(l@, i as int, *k) == class_end(l@, from as int, *k),
        decreases l@.len() - i,
    {
        i = i + 1;
    }
    i
}

/// `lit` occurs in `l` at position `i`.
pub open spec fn lit_at(l: Seq<char>, i: int, lit: Seq<char>) -> bool {
    0 <= i && i + lit.len() <= l.len() && l.subrange(i, i + lit.len()) == lit
}

/// Tests whether `lit` occurs in `l` at position `i`.
pub fn lit_at_exec(l: &Vec<char>, i: usize, lit: &Vec<char>) -> (r: bool)
    ensures
        r == lit_at(l@, i as int, lit@),
{
    if i > l.len() || lit.len() > l.len() - i {
        return false;
    }
    let mut t: usize = 0;
    while t < lit.len()
        invariant
            t <= lit@.len(),
            i + lit@.len() <= l@.len(),
            l@.len() <= usize::MAX,
            forall|u: int| 0 <= u < t ==> l@[i + u] == lit@[u],
        decreases lit@.len() - t,
    {
        if l[i + t] != lit[t] {
            assert(l@.subrange(i as int, i + lit@.len())[t as int] != lit@[t as int]);
            return false;
        }
        t = t + 1;
    }
    assert(l@.subrange(i as int, i + lit@.len()) =~= lit@);
    true
}

// ── Lexicographic order ─────────────────────────────────────────────────────

/// `a` comes strictly before `b` in lexicographic order of code points,
/// the order of Rust's `String` (whose UTF-8 byte order is code point
/// order).
pub open spec fn lex_lt(a: Seq<char>, b: Seq<char>) -> bool
    decreases a.len(),
{
    if b.len() == 0 {
        false
    } else if a.len() == 0 {
        true
    } else if a[0] != b[0] {
        a[0] < b[0]
    } else {
        lex_lt(a.drop_first(), b.drop_first())
    }
}

/// Two non-empty strings with the same first character and the same rest
/// are equal.
proof fn lemma_same_first_rest(a: Seq<char>, b: Seq<char>)
    requires
        a.len() > 0,
        b.len() > 0,
        a[0] == b[0],
        a.drop_first() == b.drop_first(),
    ensures
        a == b,
{
    assert(a.len() == a.drop_first().len() + 1 && b.len() == b.drop_first().len() + 1);
    assert forall|i: int| 0 <= i < a.len() implies a[i] == b[i] by {
        if i > 0 {
            assert(a[i] == a.drop_first()[i - 1]);
            assert(b[i] == b.drop_first()[i - 1]);
        }
    }
    assert(a =~= b);
}

/// `lex_lt` is a strict total order: irreflexive, asymmetric, total and
/// transitive.
pub proof fn lemma_lex_lt_order(a: Seq<char>, b: Seq<char>, c: Seq<char>)
    ensures
        !lex_lt(a, a),
        lex_lt(a, b) ==> !lex_lt(b, a),
        lex_lt(a, b) || a == b || lex_lt(b, a),
        lex_lt(a, b) && lex_lt(b, c) ==> lex_lt(a, c),
    decreases a.len(),
{
    if a.len() > 0 {
        let a1 = a.drop_first();
        let b1 = if b.len() > 0 {
            b.drop_first()
        } else {
            b
        };
        let c1 = if c.len() > 0 {
            c.drop_first()
        } else {
            c
        };
        lemma_lex_lt_order(a1, b1, c1);
        if b.len() > 0 && a[0] == b[0] && a1 == b1 {
            lemma_same_first_rest(a, b);
        }
    } else if b.len() == 0 {
        assert(a =~= b);
    }
}

/// Tests whether `a` comes strictly before `b` in lexicographic order.
pub fn lex_less(a: &Vec<char>, b: &Vec<char>) -> (r: bool)
    ensures
        r == lex_lt(a@, b@),
{
    let mut i: usize = 0;
    assert(a@.skip(0) =~= a@);
    assert(b@.skip(0) =~= b@);
    while i < a.len() && i < b.len() && a[i] == b[i]
        invariant
            i <= a@.len(),
            i <= b@.len(),
            lex_lt(a@, b@) == lex_lt(a@.skip(i as int), b@.skip(i as int)),
        decreases a@.len() - i,
    {
        assert(a@.skip(i as int).drop_first() =~= a@.skip(i + 1));
        assert(b@.skip(i as int).drop_first() =~= b@.skip(i + 1));
        i = i + 1;
    }
    if i == b.len() {
        false
    } else if i == a.len() {
        true
    } else {
        assert(a@.skip(i as int)[0] == a@[i as int]);
        assert(b@.skip(i as int)[0] == b@[i as int]);
        a[i] < b[i]
    }
}

/// Tests whether two character strings are equal.
pub fn chars_equal(a: &Vec<char>, b: &Vec<char>) -> (r: bool)
    ensures
        r == (a@ == b@),
{
    if a.len() != b.len() {
        return false;
    }
    let mut i: usize = 0;
    while i < a.len()
        invariant
            i <= a@.len(),
            a@.len() == b@.len(),
            forall|u: int| 0 <= u < i ==> a@[u] == b@[u],
        decreases a@.len() - i,
    {
        if a[i] != b[i] {
            return false;
        }
        i = i + 1;
    }
    assert(a@ =~= b@);
    true
}

} // verus!
