use vstd::prelude::*;

verus! {

/// Relies on std's `String::push`: appends the given character to the end of
/// the string.
#[verifier::external_body]
pub(crate) fn push_char(s: &mut String, c: char)
    ensures
        final(s)@ == old(s)@.push(c),
{
    s.push(c);
}

/// Relies on std's `String::with_capacity`: a new empty string; the capacity
/// argument is only an allocation hint and does not affect the contents.
#[verifier::external_body]
pub(crate) fn string_with_capacity(capacity: usize) -> (s: String)
    ensures
        s@ == Seq::<char>::empty(),
{
    String::with_capacity(capacity)
}

} // verus!
