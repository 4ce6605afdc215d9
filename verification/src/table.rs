//! Tables keyed by name, kept in lexicographic order of the names: a map
//! whose entries are listed in name order, and a sorted list of names.
use crate::lexical::{chars_equal, lemma_lex_lt_order, lex_less, lex_lt};
use vstd::prelude::*;

verus! {

broadcast use vstd::seq_lib::group_to_multiset_ensures;

/// The names and values of a table, each name taken by its characters.
pub open spec fn entries_view<K>(t: Seq<(Vec<char>, K)>) -> Seq<(Seq<char>, K)> {
    t.map_values(|e: (Vec<char>, K)| (e.0@, e.1))
}

/// A list of names, each taken by its characters.
pub open spec fn names_view(t: Seq<Vec<char>>) -> Seq<Seq<char>> {
    t.map_values(|n: Vec<char>| n@)
}

/// The names of `s` are strictly increasing.
pub open spec fn names_strictly_sorted<K>(s: Seq<(Seq<char>, K)>) -> bool {
    forall|i: int, j: int| 0 <= i < j < s.len() ==> lex_lt(#[trigger] s[i].0, #[trigger] s[j].0)
}

/// `s` lists the map `m`, one entry per name, in increasing name order.
pub open spec fn lists_map<K>(s: Seq<(Seq<char>, K)>, m: Map<Seq<char>, K>) -> bool {
    &&& names_strictly_sorted(s)
    &&& forall|i: int|
        0 <= i < s.len() ==> m.contains_key(#[trigger] s[i].0) && m[s[i].0] == s[i].1
    &&& forall|n: Seq<char>| #[trigger]
        m.contains_key(n) ==> exists|i: int| 0 <= i < s.len() && s[i].0 == n
}

/// `m` with `n` bound to `v` unless `n` is bound already: the first value
/// given for a name is the one kept.
pub open spec fn insert_first<K>(m: Map<Seq<char>, K>, n: Seq<char>, v: K) -> Map<Seq<char>, K> {
    if m.contains_key(n) {
        m
    } else {
        m.insert(n, v)
    }
}

/// The names of `s` never decrease.
pub open spec fn names_sorted(s: Seq<Seq<char>>) -> bool {
    forall|i: int, j: int| 0 <= i < j < s.len() ==> !lex_lt(#[trigger] s[j], #[trigger] s[i])
}

/// Bind `name` to `key` in the table unless the name is bound already.
pub fn table_insert_first<K: Copy>(
    t: &mut Vec<(Vec<char>, K)>,
    name: Vec<char>,
    key: K,
    Ghost(m): Ghost<Map<Seq<char>, K>>,
)
    requires
        lists_map(entries_view(old(t)@), m),
    ensures
        lists_map(entries_view(final(t)@), insert_first(m, name@, key)),
{
    let ghost old_s = entries_view(t@);
    let mut p: usize = 0;
    while p < t.len() && lex_less(&t[p].0, &name)
        invariant
            p <= t@.len(),
            old_s == entries_view(t@),
            lists_map(old_s, m),
            forall|i: int| 0 <= i < p ==> lex_lt(#[trigger] old_s[i].0, name@),
        decreases t@.len() - p,
    {
        p = p + 1;
    }
    if p < t.len() && chars_equal(&t[p].0, &name) {
        assert(old_s[p as int].0 == name@);
        assert(m.contains_key(name@));
        return;
    }
    proof {
        assert forall|i: int| 0 <= i < old_s.len() implies old_s[i].0 != name@ by {
            lemma_lex_lt_order(old_s[i].0, name@, name@);
            if i >= p {
                lemma_lex_lt_order(name@, old_s[p as int].0, old_s[i].0);
                lemma_lex_lt_order(old_s[p as int].0, name@, old_s[i].0);
            }
        }
        assert(!m.contains_key(name@));
    }
    let ghost nm = name@;
    t.insert(p, (name, key));
    proof {
        let s = entries_view(t@);
        assert(s =~= old_s.insert(p as int, (nm, key)));
        if p < old_s.len() {
            lemma_lex_lt_order(old_s[p as int].0, nm, nm);
        }
        assert forall|i: int, j: int| 0 <= i < j < s.len() implies lex_lt(
            #[trigger] s[i].0,
            #[trigger] s[j].0,
        ) by {
            if j == p {
            } else if i == p {
                lemma_lex_lt_order(nm, old_s[p as int].0, old_s[j - 1].0);
            } else if i < p && j > p {
                lemma_lex_lt_order(old_s[i].0, nm, old_s[j - 1].0);
            } else if i > p {
                assert(lex_lt(old_s[i - 1].0, old_s[j - 1].0));
            }
        }
        let m2 = insert_first(m, nm, key);
        assert forall|n: Seq<char>| #[trigger] m2.contains_key(n) implies exists|i: int|
            0 <= i < s.len() && s[i].0 == n by {
            if n == nm {
                assert(s[p as int].0 == n);
            } else {
                let i = choose|i: int| 0 <= i < old_s.len() && old_s[i].0 == n;
                if i < p {
                    assert(s[i].0 == n);
                } else {
                    assert(s[i + 1].0 == n);
                }
            }
        }
    }
}

/// Insert `name` into a sorted list of names, after the names equal to it.
pub fn sorted_insert(v: &mut Vec<Vec<char>>, name: Vec<char>)
    requires
        names_sorted(names_view(old(v)@)),
    ensures
        names_sorted(names_view(final(v)@)),
        names_view(final(v)@).to_multiset() == names_view(old(v)@).to_multiset().insert(name@),
{
    let ghost old_s = names_view(v@);
    let mut p: usize = 0;
    while p < v.len() && !lex_less(&name, &v[p])
        invariant
            p <= v@.len(),
            old_s == names_view(v@),
            names_sorted(old_s),
            forall|i: int| 0 <= i < p ==> !lex_lt(name@, #[trigger] old_s[i]),
        decreases v@.len() - p,
    {
        p = p + 1;
    }
    let ghost nm = name@;
    v.insert(p, name);
    proof {
        let s = names_view(v@);
        assert(s =~= old_s.insert(p as int, nm));
        assert forall|i: int, j: int| 0 <= i < j < s.len() implies !lex_lt(
            #[trigger] s[j],
            #[trigger] s[i],
        ) by {
            if i == p {
                lemma_lex_lt_order(nm, old_s[p as int], old_s[j - 1]);
                lemma_lex_lt_order(old_s[j - 1], old_s[p as int], nm);
                lemma_lex_lt_order(old_s[j - 1], nm, nm);
                lemma_lex_lt_order(old_s[p as int], old_s[j - 1], old_s[j - 1]);
            } else if j == p {
                lemma_lex_lt_order(nm, old_s[i], old_s[i]);
            } else if i < p && j > p {
                lemma_lex_lt_order(old_s[j - 1], old_s[p as int], nm);
                lemma_lex_lt_order(nm, old_s[p as int], old_s[p as int]);
                lemma_lex_lt_order(old_s[j - 1], nm, old_s[i]);
                lemma_lex_lt_order(nm, old_s[i], old_s[i]);
                lemma_lex_lt_order(old_s[p as int], old_s[j - 1], old_s[j - 1]);
            } else if i > p {
                assert(!lex_lt(old_s[j - 1], old_s[i - 1]));
            }
        }
        assert(s.remove(p as int) =~= old_s);
        assert(s[p as int] == nm);
        assert(s.to_multiset().remove(nm) =~= old_s.to_multiset());
        assert(s.to_multiset() =~= old_s.to_multiset().insert(nm));
    }
}

} // verus!
