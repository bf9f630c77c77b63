//! Small functions on strings.

use vstd::prelude::*;

verus! {

/// A new string: `s1` followed by `s2`. Neither argument is changed.
pub fn concat_strings(s1: &String, s2: &String) -> (joined: String)
    ensures
        joined@ == s1@ + s2@,
{
    let mut joined = s1.clone();
    joined.append(s2.as_str());
    joined
}

/// A copy of `s` with `"World!"` appended. The argument is not changed.
pub fn clone_and_modify(s: &String) -> (modified: String)
    ensures
        modified@ == s@ + "World!"@,
{
    let mut clone = s.clone();
    clone.append("World!");
    clone
}

} // verus!
