use vstd::prelude::*;

verus! {

/// One flat row of the body-segment table, exactly as parsed: indices are
/// signed, and a negative or out-of-range index means "absent".
/// `value` carries the bit pattern of the row's float operand.
#[derive(Clone, Copy, PartialEq, Eq, Structural, Debug)]
pub struct BodySegment {
    pub disk_info_idx: i32,
    pub action: i32,
    pub value: u32,
    pub color: i32,
    pub left: i32,
    pub right: i32,
}

/// One four-element float payload, each element a bit pattern.
#[derive(Clone, Copy, PartialEq, Eq, Structural, Debug)]
pub struct FloatQuad {
    pub a: u32,
    pub b: u32,
    pub c: u32,
    pub d: u32,
}

/// One disk-information record, exactly as parsed. The shift and scale
/// coordinates and the two four-element payload arrays carry float bit
/// patterns; the payload is passed through unchanged.
#[derive(Clone, Copy, PartialEq, Eq, Structural, Debug)]
pub struct DiskInformation {
    pub shift_x: u32,
    pub shift_y: u32,
    pub scale_x: u32,
    pub scale_y: u32,
    pub disk_idx: i32,
    pub id: i32,
    pub flags: i32,
    pub arr1: FloatQuad,
    pub arr2: FloatQuad,
}

} // verus!
