//! Where a click goes. Moving the pointer and pressing the button are the
//! caller's business.

use crate::structs::Point;
use vstd::prelude::*;

verus! {

/// Clicks on a device reached through `adb`.
#[derive(Clone, Copy, Debug, Default, PartialEq, Eq, Structural)]
pub struct AdbInputer;

/// A coordinate as the local pointer device takes it: the same number where
/// it is below 2^31, and 2^32 less where it is not.
pub open spec fn pointer_coordinate(c: u32) -> int {
    if c <= i32::MAX {
        c as int
    } else {
        c - 0x1_0000_0000
    }
}

/// The coordinates at which the local pointer device is to click for `pos`.
pub fn pointer_target(pos: &Point) -> (target: (i32, i32))
    ensures
        target.0 == pointer_coordinate(pos.x),
        target.1 == pointer_coordinate(pos.y),
{
    (signed(pos.x), signed(pos.y))
}

fn signed(c: u32) -> (r: i32)
    ensures
        r == pointer_coordinate(c),
{
    if c <= 0x7fff_ffff {
        c as i32
    } else {
        ((c - 0x8000_0000) as i64 - 0x8000_0000) as i32
    }
}

} // verus!
