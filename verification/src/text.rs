//! Small string-building helpers.

use vstd::prelude::*;

verus! {

/// Relies on String::push: appends the given character at the end of the
/// string.
#[verifier::external_body]
pub(crate) fn push_char(s: &mut String, ch: char)
    ensures
        final(s)@ == old(s)@.push(ch),
{
    s.push(ch);
}

/// Build a string of `num` copies of the character `ch`, used to pad
/// columns when a token table is printed.
pub fn spacer(num: usize, ch: char) -> (out: String)
    ensures
        out@.len() == num,
        forall|k: int| 0 <= k < num ==> out@[k] == ch,
{
    let mut space: String = String::new();
    let mut k: usize = 0;
    while k < num
        invariant
            k <= num,
            space@.len() == k,
            forall|j: int| 0 <= j < k ==> space@[j] == ch,
        decreases num - k,
    {
        push_char(&mut space, ch);
        k += 1;
    }
    space
}

} // verus!
