//! Character and byte helpers shared by the parsers.
use vstd::prelude::*;
use vstd::string::*;
use vstd::std_specs::iter::IteratorSpec;

verus! {

broadcast use vstd::string::group_string_axioms;

/// The characters of `s`, in order.
pub fn chars_of(s: &str) -> (r: Vec<char>)
    ensures
        r@ == s@,
{
    let n = s.unicode_len();
    let mut it = s.chars();
    let mut v: Vec<char> = Vec::new();
    let mut i: usize = 0;
    while i < n
        invariant
            v@ + it.remaining() == s@,
            v@.len() == i,
            i <= n,
            n == s@.len(),
        decreases n - i,
    {
        match it.next() {
            Some(c) => {
                v.push(c);
            },
            None => {
                // `n - i` characters remain, so the iterator cannot be done.
                proof {
                    assert(false);
                }
            },
        }
        i = i + 1;
    }
    proof {
        assert(v@ + it.remaining() =~= v@);
    }
    v
}

} // verus!
