use vstd::prelude::*;

verus! {

/// Decode sizes are rounded up to multiples of this many pixels.
pub const TARGET_SIZE_BUCKET: u32 = 64;

/// `pixels` rounded up to a multiple of [`TARGET_SIZE_BUCKET`].
pub open spec fn bucket_spec(pixels: int) -> int {
    ((pixels + 63) / 64) * 64
}

/// Rounds a size in whole pixels up to a multiple of [`TARGET_SIZE_BUCKET`], so that a decoder's
/// scaler is rebuilt only when the rounded value changes. A zero size counts as one pixel, so it
/// still gets one bucket.
pub fn bucket_pixels(pixels: u32) -> (r: u32)
    requires
        pixels <= u32::MAX - 63,
    ensures
        r == bucket_spec(if pixels < 1 {
            1
        } else {
            pixels as int
        }),
{
    let size = if pixels < 1 {
        1
    } else {
        pixels
    };
    let buckets = (size + 63) / TARGET_SIZE_BUCKET;
    assert(buckets * 64 <= u32::MAX) by (nonlinear_arith)
        requires
            buckets == (size + 63) / 64,
            size <= u32::MAX - 63,
    ;
    buckets * TARGET_SIZE_BUCKET
}

/// A bucketed size is a multiple of the bucket, at least the size, and less than one bucket
/// more; sizes in the same band of [`TARGET_SIZE_BUCKET`] pixels share their bucket.
pub proof fn law_bucket_rounds_up(p: int, q: int)
    requires
        1 <= p,
        1 <= q,
        (p - 1) / 64 == (q - 1) / 64,
    ensures
        bucket_spec(p) % 64 == 0,
        p <= bucket_spec(p) < p + 64,
        bucket_spec(p) == bucket_spec(q),
{
    assert(bucket_spec(p) % 64 == 0) by (nonlinear_arith)
        requires
            1 <= p,
    ;
    assert(p <= bucket_spec(p) < p + 64) by (nonlinear_arith)
        requires
            1 <= p,
    ;
    assert((p + 63) / 64 == (p - 1) / 64 + 1) by (nonlinear_arith)
        requires
            1 <= p,
    ;
    assert((q + 63) / 64 == (q - 1) / 64 + 1) by (nonlinear_arith)
        requires
            1 <= q,
    ;
}

} // verus!
