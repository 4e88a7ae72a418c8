//! Conversions between `String` values and the `Vec<char>` buffers the
//! parser and the renderers work on.

use vstd::prelude::*;
use vstd::std_specs::iter::IteratorSpec;

verus! {

broadcast use vstd::string::group_string_axioms;

/// Relies on `core::iter::Iterator::collect` building a `String` from
/// exactly the characters the iterator yields, in order.
#[verifier::external_body]
pub fn chars_to_string(v: &Vec<char>) -> (s: String)
    ensures
        s@ == v@,
{
    v.iter().collect()
}

/// The characters of `s`, collected into a vector.
pub fn str_to_chars(s: &str) -> (v: Vec<char>)
    ensures
        v@ == s@,
{
    let mut it = s.chars();
    let mut v: Vec<char> = Vec::new();
    let mut done: bool = false;
    while !done
        invariant
            it.obeys_prophetic_iter_laws(),
            v@ + it.remaining() == s@,
            done ==> it.remaining().len() == 0,
            !done ==> it.decrease() is Some,
        decreases (if done {
            0nat
        } else {
            it.decrease()->0 + 1
        }),
    {
        match it.next() {
            Some(c) => {
                v.push(c);
                assert(v@ + it.remaining() =~= s@);
            },
            None => {
                done = true;
            },
        }
    }
    assert(v@ =~= s@);
    v
}

} // verus!
