//! Reading the start of a string, character by character.

use vstd::prelude::*;
use vstd::string::StrSliceExecFns;

verus! {

/// Takes `prefix` off the start of `text`. Gives what follows it, or `None`
/// where `text` does not begin with `prefix`.
pub fn strip_prefix<'a>(text: &'a str, prefix: &str) -> (rest: Option<&'a str>)
    ensures
        rest.is_some() == prefix@.is_prefix_of(text@),
        rest.is_some() ==> rest.unwrap()@ == text@.skip(prefix@.len() as int),
{
    let n = text.unicode_len();
    let p = prefix.unicode_len();
    if p > n {
        return None;
    }
    let mut i: usize = 0;
    while i < p
        invariant
            i <= p <= n,
            n == text@.len(),
            p == prefix@.len(),
            forall|k: int| 0 <= k < i ==> text@[k] == prefix@[k],
        decreases p - i,
    {
        if text.get_char(i) != prefix.get_char(i) {
            assert(text@.subrange(0, p as int)[i as int] != prefix@[i as int]);
            return None;
        }
        i += 1;
    }
    assert(prefix@ =~= text@.subrange(0, p as int));
    Some(text.substring_char(p, n))
}

} // verus!
