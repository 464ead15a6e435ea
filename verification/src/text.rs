//! Text as a sequence of characters.

use vstd::prelude::*;
use vstd::string::*;

verus! {

/// The characters of a text, in order.
pub fn characters(text: &str) -> (chars: Vec<char>)
    ensures
        chars@ == text@,
{
    let mut chars: Vec<char> = Vec::new();
    for c in it: text.chars()
        invariant
            it.seq() == text@,
            chars@ == text@.take(it.index() as int),
    {
        proof {
            assert(text@.take(it.index() + 1) =~= text@.take(it.index() as int).push(c));
        }
        chars.push(c);
    }
    proof {
        assert(text@.take(text@.len() as int) =~= text@);
    }
    chars
}

/// Whether two sequences of characters are the same.
pub fn same_characters(a: &Vec<char>, b: &Vec<char>) -> (same: bool)
    ensures
        same == (a@ == b@),
{
    if a.len() != b.len() {
        return false;
    }
    let mut k: usize = 0;
    while k < a.len()
        invariant
            k <= a.len(),
            a.len() == b.len(),
            forall|n: int| 0 <= n < k ==> a@[n] == b@[n],
        decreases a.len() - k,
    {
        if a[k] != b[k] {
            return false;
        }
        k += 1;
    }
    proof {
        assert(a@ =~= b@);
    }
    true
}

} // verus!
