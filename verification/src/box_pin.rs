//! What the boxed futures of the program resolve to. The program boxes and
//! awaits them; the values are computed here.

use vstd::prelude::*;

verus! {

/// The value of the future that sleeps for `i` seconds and then counts one
/// up: the successor of `i`.
pub fn add_one_async(i: usize) -> (res: usize)
    requires
        i < usize::MAX,
    ensures
        res == i + 1,
{
    i + 1
}

/// The value of the future that pays no heed to its argument: always one.
pub fn to_none_async(_i: usize) -> (res: usize)
    ensures
        res == 1,
{
    1
}

} // verus!
