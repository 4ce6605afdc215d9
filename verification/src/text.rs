//! Characters of strings, and strings built from characters.
use vstd::prelude::*;
use vstd::std_specs::iter::IteratorSpec;

verus! {

broadcast use vstd::string::group_string_axioms;

/// `String::push`: claims that the character is appended after the
/// characters already held.
#[verifier::external_body]
pub(crate) fn push_char(s: &mut String, c: char)
    ensures
        final(s)@ == old(s)@.push(c),
{
    s.push(c)
}

/// The characters of a string slice, in order.
pub fn chars_of(s: &str) -> (r: Vec<char>)
    ensures
        r@ == s@,
{
    let mut r: Vec<char> = Vec::new();
    for c in it: s.chars()
        invariant
            r@ == it.seq().take(it.index()),
    {
        r.push(c);
        assert(r@ =~= it.seq().take(it.index() + 1));
    }
    assert(r@ =~= s@);
    r
}

/// The string made of the characters `cs[from..to]`.
pub fn string_of(cs: &Vec<char>, from: usize, to: usize) -> (r: String)
    requires
        from <= to <= cs@.len(),
    ensures
        r@ == cs@.subrange(from as int, to as int),
{
    let mut r = String::new();
    let mut i = from;
    while i < to
        invariant
            from <= i <= to <= cs@.len(),
            r@ == cs@.subrange(from as int, i as int),
        decreases to - i,
    {
        push_char(&mut r, cs[i]);
        i = i + 1;
        assert(r@ =~= cs@.subrange(from as int, i as int));
    }
    r
}

/// The characters `cs[from..to]`.
pub fn sub_chars(cs: &Vec<char>, from: usize, to: usize) -> (r: Vec<char>)
    requires
        from <= to <= cs@.len(),
    ensures
        r@ == cs@.subrange(from as int, to as int),
{
    let mut r: Vec<char> = Vec::new();
    let mut i = from;
    while i < to
        invariant
            from <= i <= to <= cs@.len(),
            r@ == cs@.subrange(from as int, i as int),
        decreases to - i,
    {
        r.push(cs[i]);
        i = i + 1;
        assert(r@ =~= cs@.subrange(from as int, i as int));
    }
    r
}

/// The pieces of `s` between line feeds: `s` split at every `'\n'`
/// (`str::split('\n')`), so that there is always one piece more than
/// there are line feeds.
pub open spec fn split_nl(s: Seq<char>) -> Seq<Seq<char>>
    decreases s.len(),
{
    if s.len() == 0 {
        seq![Seq::empty()]
    } else {
        let prev = split_nl(s.drop_last());
        if s.last() == '\n' {
            prev.push(Seq::empty())
        } else {
            prev.update(prev.len() - 1, prev.last().push(s.last()))
        }
    }
}

/// There is always at least one piece.
pub proof fn lemma_split_nl_len(s: Seq<char>)
    ensures
        split_nl(s).len() >= 1,
    decreases s.len(),
{
    if s.len() > 0 {
        lemma_split_nl_len(s.drop_last());
    }
}

/// A piece without the carriage return that ends it, if it ends with one.
pub open spec fn strip_cr(p: Seq<char>) -> Seq<char> {
    if p.len() > 0 && p.last() == '\r' {
        p.drop_last()
    } else {
        p
    }
}

/// The lines of `s` (`str::lines`): the text between line feeds, each line
/// without the `'\r'` of a `"\r\n"` line ending; the text after the last
/// line feed is a line only when it is not empty.
pub open spec fn text_lines(s: Seq<char>) -> Seq<Seq<char>> {
    let ps = split_nl(s);
    let n = ps.len() - 1;
    Seq::new(n as nat, |i: int| strip_cr(ps[i])) + if ps[n].len() > 0 {
        seq![ps[n]]
    } else {
        Seq::empty()
    }
}

/// The pieces of a text between line feeds.
pub fn split_lines(cs: &Vec<char>) -> (r: Vec<Vec<char>>)
    ensures
        r@.map_values(|p: Vec<char>| p@) == split_nl(cs@),
{
    let mut done: Vec<Vec<char>> = Vec::new();
    let mut cur: Vec<char> = Vec::new();
    let mut i: usize = 0;
    assert(cs@.take(0) =~= Seq::<char>::empty());
    assert(done@.map_values(|p: Vec<char>| p@).push(cur@) =~= split_nl(cs@.take(0)));
    while i < cs.len()
        invariant
            i <= cs@.len(),
            done@.map_values(|p: Vec<char>| p@).push(cur@) == split_nl(cs@.take(i as int)),
        decreases cs@.len() - i,
    {
        let c = cs[i];
        let ghost prev = done@.map_values(|p: Vec<char>| p@).push(cur@);
        assert(cs@.take(i + 1).drop_last() =~= cs@.take(i as int));
        assert(cs@.take(i + 1).last() == c);
        if c == '\n' {
            let finished = cur;
            done.push(finished);
            cur = Vec::new();
            assert(done@.map_values(|p: Vec<char>| p@) =~= prev);
            assert(done@.map_values(|p: Vec<char>| p@).push(cur@) =~= prev.push(Seq::empty()));
        } else {
            cur.push(c);
            assert(done@.map_values(|p: Vec<char>| p@).push(cur@) =~= prev.update(
                prev.len() - 1,
                prev.last().push(c),
            ));
        }
        i = i + 1;
    }
    assert(cs@.take(cs@.len() as int) =~= cs@);
    done.push(cur);
    done
}

/// The lines of a text, from its pieces between line feeds.
pub fn lines_of(pieces: &Vec<Vec<char>>, Ghost(s): Ghost<Seq<char>>) -> (r: Vec<Vec<char>>)
    requires
        pieces@.map_values(|p: Vec<char>| p@) == split_nl(s),
    ensures
        r@.map_values(|p: Vec<char>| p@) == text_lines(s),
{
    proof {
        lemma_split_nl_len(s);
    }
    let ghost ps = split_nl(s);
    let n = pieces.len() - 1;
    let mut r: Vec<Vec<char>> = Vec::new();
    let mut i: usize = 0;
    while i < n
        invariant
            i <= n,
            n + 1 == pieces@.len(),
            ps == pieces@.map_values(|p: Vec<char>| p@),
            r@.map_values(|p: Vec<char>| p@) == Seq::new(i as nat, |k: int| strip_cr(ps[k])),
        decreases n - i,
    {
        let p = &pieces[i];
        assert(p@ == ps[i as int]);
        let line = if p.len() > 0 && p[p.len() - 1] == '\r' {
            sub_chars(p, 0, p.len() - 1)
        } else {
            sub_chars(p, 0, p.len())
        };
        assert(line@ =~= strip_cr(ps[i as int]));
        let ghost prev = r@.map_values(|p: Vec<char>| p@);
        r.push(line);
        assert(r@.map_values(|p: Vec<char>| p@) =~= prev.push(strip_cr(ps[i as int])));
        i = i + 1;
        assert(r@.map_values(|p: Vec<char>| p@) =~= Seq::new(i as nat, |k: int| strip_cr(ps[k])));
    }
    let last = &pieces[n];
    assert(last@ == ps[n as int]);
    let ghost prev = r@.map_values(|p: Vec<char>| p@);
    if last.len() > 0 {
        let line = sub_chars(last, 0, last.len());
        assert(line@ =~= ps[n as int]);
        r.push(line);
        assert(r@.map_values(|p: Vec<char>| p@) =~= prev.push(ps[n as int]));
        assert(r@.map_values(|p: Vec<char>| p@) =~= text_lines(s));
    } else {
        assert(r@.map_values(|p: Vec<char>| p@) =~= text_lines(s));
    }
    r
}

} // verus!
