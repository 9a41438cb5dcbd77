use vstd::prelude::*;

verus! {

/// Relies on `String::push` of std: appends one character to the
/// end of the string.
pub assume_specification[ String::push ](s: &mut String, c: char)
    ensures
        final (s)@ == old(s)@.push(c),
;

/// Builds an owned string out of a vector of characters.
pub fn string_from_chars(chars: &Vec<char>) -> (r: String)
    ensures
        r@ =~= chars@,
{
    let mut r = String::new();
    let mut k: usize = 0;
    while k < chars.len()
        invariant
            k <= chars.len(),
            r@ =~= chars@.take(k as int),
        decreases chars.len() - k,
    {
        r.push(chars[k]);
        k = k + 1;
        proof {
            assert(chars@.take(k as int) =~= chars@.take(k - 1).push(chars@[k - 1]));
        }
    }
    proof {
        assert(chars@.take(chars@.len() as int) =~= chars@);
    }
    r
}

} // verus!
