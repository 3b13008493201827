//! The floating recorder window: which window styles it keeps, and which
//! click regions and sizes the interface may ask for. Floats of the
//! interface are held by their IEEE-754 bit patterns, on which the checks
//! are exact.
use vstd::prelude::*;
use crate::storage::scale_in_range;
use crate::text::str_eq;

verus! {

/// Bit pattern of the float 2000.0.
pub const BITS_2000: u64 = 0x409F_4000_0000_0000;

/// All bits but the sign.
pub const MAGNITUDE_MASK: u64 = 0x7FFF_FFFF_FFFF_FFFF;

/// A float that is finite and lies in `(0, 2000]`: a positive float's bit
/// pattern orders as the float does, and zero, negatives, infinities and
/// NaNs fall outside `1..=BITS_2000`.
pub open spec fn positive_at_most_2000(bits: u64) -> bool {
    0 < bits <= BITS_2000
}

/// A float that is finite and of absolute value at most 2000.
pub open spec fn magnitude_at_most_2000(bits: u64) -> bool {
    (bits & MAGNITUDE_MASK) <= BITS_2000
}

/// One clickable rectangle of the recorder, in logical pixels, each float
/// given by its bit pattern.
#[derive(Clone, Copy, Debug)]
pub struct HitRect {
    pub x_bits: u64,
    pub y_bits: u64,
    pub width_bits: u64,
    pub height_bits: u64,
}

/// A rectangle is usable when every coordinate is finite, its size is
/// positive and at most 2000, and its corner lies within 2000 of the origin.
pub open spec fn rect_ok(r: HitRect) -> bool {
    &&& positive_at_most_2000(r.width_bits)
    &&& positive_at_most_2000(r.height_bits)
    &&& magnitude_at_most_2000(r.x_bits)
    &&& magnitude_at_most_2000(r.y_bits)
}

fn rect_valid(r: &HitRect) -> (b: bool)
    ensures
        b == rect_ok(*r),
{
    0 < r.width_bits && r.width_bits <= BITS_2000 && 0 < r.height_bits && r.height_bits <= BITS_2000
        && (r.x_bits & MAGNITUDE_MASK) <= BITS_2000 && (r.y_bits & MAGNITUDE_MASK) <= BITS_2000
}

/// The click region may be set only on the recorder window, from 1 to 32
/// usable rectangles.
pub fn check_region(label: &str, rects: &[HitRect]) -> (r: Result<(), String>)
    ensures
        !(label@ == "recorder"@) || rects.len() == 0 || rects.len() > 32 ==> (r matches Err(m) && m@ == "Region no valida"@),
        (label@ == "recorder"@ && 0 < rects.len() <= 32) ==> (
            (r is Ok <==> forall|i: int| 0 <= i < rects.len() ==> rect_ok(#[trigger] rects@[i]))
            && (r matches Err(m) ==> m@ == "Coordenadas invalidas"@)),
{
    if !str_eq(label, "recorder") || rects.len() == 0 || rects.len() > 32 {
        return Err(String::from_str("Region no valida"));
    }
    let mut i: usize = 0;
    while i < rects.len()
        invariant
            i <= rects.len(),
            0 < rects.len() <= 32,
            label@ == "recorder"@,
            forall|k: int| 0 <= k < i ==> rect_ok(#[trigger] rects@[k]),
        decreases rects.len() - i,
    {
        if !rect_valid(&rects[i]) {
            return Err(String::from_str("Coordenadas invalidas"));
        }
        i += 1;
    }
    Ok(())
}

/// The recorder may be resized, on the recorder window only, to a scale in
/// `0.6..=1.25` (given by its bit pattern).
pub fn check_size(label: &str, scale_bits: u64) -> (r: Result<(), String>)
    ensures
        r is Ok <==> (label@ == "recorder"@ && scale_in_range(scale_bits)),
        r matches Err(m) ==> m@ == "Tamano invalido"@,
{
    if !str_eq(label, "recorder") || !(crate::storage::SCALE_MIN_BITS <= scale_bits && scale_bits
        <= crate::storage::SCALE_MAX_BITS) {
        return Err(String::from_str("Tamano invalido"));
    }
    Ok(())
}

/// The styles of the floating recorder: of the window style only
/// `WS_VISIBLE` is kept, and `WS_POPUP`, `WS_CLIPSIBLINGS` and
/// `WS_CLIPCHILDREN` are set; of the extended style `WS_EX_APPWINDOW`,
/// `WS_EX_WINDOWEDGE` and `WS_EX_CLIENTEDGE` are cleared and
/// `WS_EX_TOOLWINDOW` and `WS_EX_TOPMOST` set, other bits (the compositor's)
/// kept.
pub open spec fn popup_styles_spec(style: u32, extended: u32) -> (u32, u32) {
    (
        (style & 0x1000_0000) | 0x8000_0000 | 0x0600_0000,
        (extended & !(0x0004_0000u32 | 0x0000_0100u32 | 0x0000_0200u32)) | 0x80 | 0x08,
    )
}

pub fn popup_styles(style: u32, extended: u32) -> (r: (u32, u32))
    ensures
        r == popup_styles_spec(style, extended),
{
    let s = (style & 0x1000_0000) | 0x8000_0000 | 0x0600_0000;
    let e = (extended & !(0x0004_0000u32 | 0x0000_0100u32 | 0x0000_0200u32)) | 0x80 | 0x08;
    (s, e)
}

/// Whatever styles a window had or is about to get, the filtered ones have
/// no caption, frame or system menu, are a popup, keep visibility exactly as
/// it was, never show on the taskbar as an app window, have no edges, and
/// are a tool window: filtering again changes nothing.
pub proof fn law_popup_styles(style: u32, extended: u32)
    ensures
        popup_styles_spec(style, extended).0 & 0x00CF_0000 == 0,
        popup_styles_spec(style, extended).0 & 0x8000_0000 != 0,
        (popup_styles_spec(style, extended).0 & 0x1000_0000 != 0) == (style & 0x1000_0000 != 0),
        popup_styles_spec(style, extended).1 & 0x0004_0300 == 0,
        popup_styles_spec(style, extended).1 & 0x80 != 0,
        popup_styles_spec(style, extended).1 & !0x0004_0388u32 == extended & !0x0004_0388u32,
        popup_styles_spec(popup_styles_spec(style, extended).0, popup_styles_spec(style, extended).1) == popup_styles_spec(style, extended),
{
    let s = (style & 0x1000_0000) | 0x8000_0000 | 0x0600_0000;
    let e = (extended & !(0x0004_0000u32 | 0x0000_0100u32 | 0x0000_0200u32)) | 0x80 | 0x08;
    assert(s & 0x00CF_0000 == 0) by (bit_vector)
        requires
            s == (style & 0x1000_0000) | 0x8000_0000 | 0x0600_0000,
    ;
    assert(s & 0x8000_0000 != 0) by (bit_vector)
        requires
            s == (style & 0x1000_0000) | 0x8000_0000 | 0x0600_0000,
    ;
    assert((s & 0x1000_0000 != 0) == (style & 0x1000_0000 != 0)) by (bit_vector)
        requires
            s == (style & 0x1000_0000) | 0x8000_0000 | 0x0600_0000,
    ;
    assert(e & 0x0004_0300 == 0) by (bit_vector)
        requires
            e == (extended & !(0x0004_0000u32 | 0x0000_0100u32 | 0x0000_0200u32)) | 0x80 | 0x08,
    ;
    assert(e & 0x80 != 0) by (bit_vector)
        requires
            e == (extended & !(0x0004_0000u32 | 0x0000_0100u32 | 0x0000_0200u32)) | 0x80 | 0x08,
    ;
    assert(e & !0x0004_0388u32 == extended & !0x0004_0388u32) by (bit_vector)
        requires
            e == (extended & !(0x0004_0000u32 | 0x0000_0100u32 | 0x0000_0200u32)) | 0x80 | 0x08,
    ;
    assert((s & 0x1000_0000) | 0x8000_0000 | 0x0600_0000 == s) by (bit_vector)
        requires
            s == (style & 0x1000_0000) | 0x8000_0000 | 0x0600_0000,
    ;
    assert((e & !(0x0004_0000u32 | 0x0000_0100u32 | 0x0000_0200u32)) | 0x80 | 0x08 == e) by (bit_vector)
        requires
            e == (extended & !(0x0004_0000u32 | 0x0000_0100u32 | 0x0000_0200u32)) | 0x80 | 0x08,
    ;
}

} // verus!
