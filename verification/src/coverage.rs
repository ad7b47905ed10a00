//! Small integer classification helpers used by coverage reporting.
use vstd::prelude::*;

verus! {

/// Classifies an integer as negative, zero or positive.
pub fn classify(value: i32) -> (label: &'static str)
    ensures
        value < 0 ==> label@ == "negative"@,
        value == 0 ==> label@ == "zero"@,
        value > 0 ==> label@ == "positive"@,
{
    if value < 0 {
        "negative"
    } else if value == 0 {
        "zero"
    } else {
        "positive"
    }
}

/// Doubles a value whose double fits in an `i32`.
pub fn never_called(value: i32) -> (doubled: i32)
    requires
        i32::MIN <= 2 * value <= i32::MAX,
    ensures
        doubled == 2 * value,
{
    value * 2
}

} // verus!
