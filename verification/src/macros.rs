//! Extraction of protocol IEs from decoded NGAP messages: an IE marked
//! required (`req`) must be present, else the extraction fails with
//! `MissingIeError`; an optional one (`opt`) stays an `Option`. When an IE
//! occurs more than once in a message, its last occurrence is the one
//! taken.
use vstd::prelude::*;

verus! {

/// Error returned when a required IE is missing.
#[derive(Debug, Clone)]
pub struct MissingIeError {
    /// Name of the missing required IE field.
    pub ie_name: &'static str,
}

impl MissingIeError {
    /// The error message: `missing required NGAP IE: ` and the IE's name.
    pub fn message(&self) -> (r: String)
        ensures
            r@ == "missing required NGAP IE: "@ + self.ie_name@,
    {
        let mut r = String::from_str("missing required NGAP IE: ");
        r.append(self.ie_name);
        r
    }
}

/// Unwrap a required IE: the value when the IE was found, and otherwise a
/// `MissingIeError` that names it.
pub fn require_ie<T>(ie_name: &'static str, found: Option<T>) -> (r: Result<T, MissingIeError>)
    ensures
        match found {
            Some(v) => r == Ok::<T, MissingIeError>(v),
            None => r == Err::<T, MissingIeError>(MissingIeError { ie_name }),
        },
{
    match found {
        Some(v) => Ok(v),
        None => Err(MissingIeError { ie_name }),
    }
}

/// The last `Some` of a sequence, or `None` when there is none.
pub open spec fn last_some<T>(outs: Seq<Option<T>>) -> Option<T>
    decreases outs.len(),
{
    if outs.len() == 0 {
        None
    } else if outs.last() is Some {
        outs.last()
    } else {
        last_some(outs.drop_last())
    }
}

/// The last match is the one taken: when entry `i` gives `Some` and every
/// later entry gives `None`, the result is what entry `i` gave; and the
/// result is `None` exactly when no entry gives `Some`.
pub proof fn lemma_last_some<T>(outs: Seq<Option<T>>)
    ensures
        forall|i: int|
            0 <= i < outs.len() && #[trigger] outs[i] is Some && (forall|j: int|
                i < j < outs.len() ==> outs[j] is None) ==> last_some(outs) == outs[i],
        (last_some(outs) is None) <==> (forall|j: int| 0 <= j < outs.len() ==> outs[j] is None),
    decreases outs.len(),
{
    if outs.len() > 0 {
        let p = outs.drop_last();
        lemma_last_some(p);
        assert forall|j: int| 0 <= j < p.len() implies p[j] == outs[j] by {}
        if outs.last() is None {
            assert forall|i: int|
                0 <= i < outs.len() && #[trigger] outs[i] is Some && (forall|j: int|
                    i < j < outs.len() ==> outs[j] is None) implies last_some(outs) == outs[i] by {
                assert(i < outs.len() - 1);
                assert(p[i] is Some);
                assert forall|j: int| i < j < p.len() implies p[j] is None by {
                    assert(outs[j] is None);
                }
            }
            if last_some(outs) is None {
                assert forall|j: int| 0 <= j < outs.len() implies outs[j] is None by {
                    if j < outs.len() - 1 {
                        assert(p[j] == outs[j]);
                    }
                }
            }
        } else {
            assert forall|i: int|
                0 <= i < outs.len() && #[trigger] outs[i] is Some && (forall|j: int|
                    i < j < outs.len() ==> outs[j] is None) implies last_some(outs) == outs[i] by {
                if i < outs.len() - 1 {
                    assert(outs[outs.len() - 1] is None);
                }
            }
            assert(outs[outs.len() - 1] is Some);
        }
    }
}

/// Look an IE up in a message's protocol IE list: `select` gives the value
/// that an entry carries when it is the IE sought, and `None` otherwise.
/// The result is what `select` gave for the last entry that it matched,
/// or `None` when it matched none; `select` is called once per entry, in
/// order.
pub fn find_last_ie<E, T, F: Fn(&E) -> Option<T>>(ies: &[E], select: F) -> (r: Option<T>)
    requires
        forall|i: int| 0 <= i < ies@.len() ==> call_requires(select, (&ies@[i],)),
    ensures
        exists|outs: Seq<Option<T>>|
            {
                &&& #[trigger] outs.len() == ies@.len()
                &&& forall|i: int|
                    0 <= i < ies@.len() ==> call_ensures(select, (&ies@[i],), #[trigger] outs[i])
                &&& r == last_some(outs)
            },
{
    let mut r: Option<T> = None;
    let ghost mut outs: Seq<Option<T>> = Seq::empty();
    let mut i: usize = 0;
    while i < ies.len()
        invariant
            i <= ies@.len(),
            forall|k: int| 0 <= k < ies@.len() ==> call_requires(select, (&ies@[k],)),
            outs.len() == i,
            forall|k: int| 0 <= k < i ==> call_ensures(select, (&ies@[k],), #[trigger] outs[k]),
            r == last_some(outs),
        decreases ies@.len() - i,
    {
        let o = select(&ies[i]);
        proof {
            let prev = outs;
            outs = outs.push(o);
            assert(outs.drop_last() =~= prev);
        }
        if o.is_some() {
            r = o;
        }
        i = i + 1;
    }
    r
}

} // verus!
