//! Checks on the shape of an RGBA buffer before any pixel is touched.

use vstd::prelude::*;

verus! {

/// Number of bytes of one RGBA pixel.
pub const BYTES_PER_PIXEL: usize = 4;

/// The byte length that a `width` x `height` RGBA image has, as a mathematical integer.
pub open spec fn rgba_len_spec(width: int, height: int) -> int {
    width * height * 4
}

/// `width * height * 4` computed with overflow checks on `usize`:
/// `None` exactly when the product does not fit.
pub fn expected_rgba_len(width: u32, height: u32) -> (res: Option<usize>)
    ensures
        match res {
            Some(n) => n == rgba_len_spec(width as int, height as int),
            None => rgba_len_spec(width as int, height as int) > usize::MAX,
        },
{
    let w = width as usize;
    let h = height as usize;
    match w.checked_mul(h) {
        Some(wh) => {
            let r = wh.checked_mul(4);
            proof {
                assert(wh * 4 == (width as int) * (height as int) * 4);
            }
            r
        },
        None => {
            proof {
                if width > 0 && height > 0 {
                    assert((width as int) * (height as int) * 4 >= (width as int) * (height as int)) by (nonlinear_arith)
                        requires width > 0, height > 0;
                }
            }
            None
        },
    }
}

} // verus!

verus! {

/// Whether a plugin call describes a usable image: both dimensions non-zero, both
/// buffers present, a non-empty parameter string, and an RGBA buffer of exactly
/// `width * height * 4` bytes (a size that must itself fit in `usize`).
pub open spec fn input_is_valid(
    width: u32,
    height: u32,
    rgba_is_null: bool,
    rgba_len: usize,
    params_is_null: bool,
    params_len: usize,
) -> bool {
    &&& width != 0
    &&& height != 0
    &&& !rgba_is_null
    &&& !params_is_null
    &&& params_len != 0
    &&& rgba_len_spec(width as int, height as int) <= usize::MAX
    &&& rgba_len == rgba_len_spec(width as int, height as int)
}

/// Checks the arguments a plugin receives before it reads either buffer.
/// The two pointers are passed as their null-ness only.
pub fn validate_input(
    width: u32,
    height: u32,
    rgba_is_null: bool,
    rgba_len: usize,
    params_is_null: bool,
    params_len: usize,
) -> (ok: bool)
    ensures
        ok == input_is_valid(width, height, rgba_is_null, rgba_len, params_is_null, params_len),
{
    if width == 0 || height == 0 || rgba_is_null || params_is_null || params_len == 0 {
        return false;
    }
    let expected_len = match expected_rgba_len(width, height) {
        Some(v) => v,
        None => return false,
    };
    rgba_len == expected_len
}

} // verus!

verus! {

/// Status a plugin returns when the image was processed.
pub const STATUS_OK: i32 = 0;

/// Status a plugin returns when its arguments fail [`validate_input`].
pub const STATUS_INVALID_INPUT: i32 = 1;

/// Status a plugin returns when its parameter text is not valid JSON for its parameters.
pub const STATUS_INVALID_PARAMS: i32 = 2;

/// Status the blur plugin returns when its radius does not fit in `isize`.
pub const STATUS_INVALID_RADIUS: i32 = 3;

/// Status the blur plugin returns when blurring itself fails.
pub const STATUS_BLUR_FAILED: i32 = 4;

} // verus!
