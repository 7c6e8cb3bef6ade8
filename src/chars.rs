//! Building strings a character at a time.
use vstd::prelude::*;

verus! {

/// `n` copies of `c`.
pub open spec fn run(c: char, n: nat) -> Seq<char> {
    Seq::new(n, |_i: int| c)
}

/// Relies on `String::push`: the character is appended at the end.
#[verifier::external_body]
pub(crate) fn push_char(s: &mut String, c: char)
    ensures
        final(s)@ == old(s)@.push(c),
{
    s.push(c)
}

/// Appends `n` copies of `c` to `s`.
pub(crate) fn push_run(s: &mut String, c: char, n: usize)
    ensures
        final(s)@ == old(s)@ + run(c, n as nat),
{
    let mut k: usize = 0;
    while k < n
        invariant
            k <= n,
            s@ == old(s)@ + run(c, k as nat),
        decreases n - k,
    {
        push_char(s, c);
        k = k + 1;
        assert(s@ =~= old(s)@ + run(c, k as nat));
    }
}

} // verus!
