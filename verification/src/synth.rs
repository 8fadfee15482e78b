//! Output sample and level-table types of the synthesizer, and the integer
//! interpolation used when resampling the chip output to the audio rate.
use vstd::prelude::*;

verus! {

/// Output sample format produced by the synthesizer.
#[derive(Debug, Clone, Copy, PartialEq, Eq, Structural)]
pub struct StereoSample {
    pub left: i16,
    pub right: i16,
}

impl Default for StereoSample {
    fn default() -> (r: Self)
        ensures
            r == (StereoSample { left: 0, right: 0 }),
    {
        StereoSample { left: 0, right: 0 }
    }
}

/// Per-channel panning / level tables (32 entries each).
#[derive(Debug, Clone, Copy)]
pub struct LevelTables {
    pub al: [i32; 32],
    pub ar: [i32; 32],
    pub bl: [i32; 32],
    pub br: [i32; 32],
    pub cl: [i32; 32],
    pub cr: [i32; 32],
}

impl Default for LevelTables {
    fn default() -> (r: Self)
        ensures
            forall|i: int|
                0 <= i < 32 ==> #[trigger] r.al[i] == 0 && r.ar[i] == 0 && r.bl[i] == 0 && r.br[i]
                    == 0 && r.cl[i] == 0 && r.cr[i] == 0,
    {
        LevelTables {
            al: [0i32; 32],
            ar: [0i32; 32],
            bl: [0i32; 32],
            br: [0i32; 32],
            cl: [0i32; 32],
            cr: [0i32; 32],
        }
    }
}

/// Integer division rounding toward zero.
pub open spec fn div_toward_zero(a: int, b: int) -> int {
    if a >= 0 {
        a / b
    } else {
        -((-a) / b)
    }
}

/// `v` clamped to the `i16` range.
pub open spec fn clamp16(v: int) -> i16 {
    if v < -32768 {
        -32768i16
    } else if v > 32767 {
        32767i16
    } else {
        v as i16
    }
}

/// The point `ofs / 65536` of the way from `l0` to `l1`, rounded toward `l0`.
pub open spec fn spec_interpolate16(l1: i32, l0: i32, ofs: i32) -> i16 {
    clamp16(div_toward_zero((l1 - l0) * ofs, 65536) + l0)
}

/// Linear interpolation between the previous chip output `l0` and the current
/// one `l1` at offset `ofs` (0..=65536, where 65536 selects `l1`), clamped to
/// the `i16` range.
pub fn interpolate16(l1: i32, l0: i32, ofs: i32) -> (r: i16)
    requires
        i32::MIN <= l1 - l0 <= i32::MAX,
        i32::MIN <= (l1 - l0) * ofs <= i32::MAX,
        i32::MIN <= div_toward_zero((l1 - l0) * ofs, 65536) + l0 <= i32::MAX,
    ensures
        r == spec_interpolate16(l1, l0, ofs),
{
    let d: i64 = l1 as i64 - l0 as i64;
    let p: i64 = d * ofs as i64;
    let q: i64 = if p >= 0 {
        p / 65536
    } else {
        -((-p) / 65536)
    };
    let v: i64 = q + l0 as i64;
    if v < -32768 {
        -32768
    } else if v > 32767 {
        32767
    } else {
        v as i16
    }
}

} // verus!
