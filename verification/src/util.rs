use vstd::prelude::*;
use vstd::string::StringSliceAdditionalSpecFns;

verus! {

/// A vehicle that carries a borrowed name.
pub struct Shuttle<'a> {
    pub name: &'a str,
}

/// A fresh table row of `len` copies of `val`.
pub(crate) fn filled_row(len: usize, val: i32) -> (r: Vec<i32>)
    ensures
        r@.len() == len,
        forall|t: int| 0 <= t < len ==> r@[t] == val,
{
    let mut r: Vec<i32> = Vec::new();
    let mut j: usize = 0;
    while j < len
        invariant
            j <= len,
            r@.len() == j,
            forall|t: int| 0 <= t < j ==> r@[t] == val,
        decreases len - j,
    {
        r.push(val);
        j += 1;
    }
    r
}

/// Subtracts `y` from `x`.
pub fn substract(x: i32, y: i32) -> (r: i32)
    requires
        i32::MIN <= x - y <= i32::MAX,
    ensures
        r == x - y,
{
    x - y
}

/// Picks the fuel whose name is longer in bytes; ties go to the second.
pub fn best_fuel<'a>(x: &'a str, y: &'a str) -> (r: &'a str)
    ensures
        r@ == (if x.spec_bytes().len() > y.spec_bytes().len() {
            x@
        } else {
            y@
        }),
{
    if x.as_bytes().len() > y.as_bytes().len() {
        x
    } else {
        y
    }
}

} // verus!
