//! Small numeric helpers shared by the band index builder.

use vstd::prelude::*;

verus! {

/// Largest of three integers.
pub open spec fn spec_max3(n0: int, n1: int, n2: int) -> int {
    if n1 > n0 {
        if n2 > n1 {
            n2
        } else {
            n1
        }
    } else {
        if n2 > n0 {
            n2
        } else {
            n0
        }
    }
}

/// Smallest of three integers.
pub open spec fn spec_min3(n0: int, n1: int, n2: int) -> int {
    if n1 < n0 {
        if n2 < n1 {
            n2
        } else {
            n1
        }
    } else {
        if n2 < n0 {
            n2
        } else {
            n0
        }
    }
}

pub fn max_3number(n0: i64, n1: i64, n2: i64) -> (r: i64)
    ensures
        r == spec_max3(n0 as int, n1 as int, n2 as int),
{
    let mut max_num = n0;
    if n1 > max_num {
        max_num = n1;
    }
    if n2 > max_num {
        max_num = n2;
    }
    max_num
}

pub fn min_3number(n0: i64, n1: i64, n2: i64) -> (r: i64)
    ensures
        r == spec_min3(n0 as int, n1 as int, n2 as int),
{
    let mut min_num = n0;
    if n1 < min_num {
        min_num = n1;
    }
    if n2 < min_num {
        min_num = n2;
    }
    min_num
}

} // verus!
