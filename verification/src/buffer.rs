//! Row-major views over flat buffers, and the two verified data-movement
//! primitives (clearing a range, copying a range) that the kernels share.
//!
//! A batch view lays a 2-D structure over a 1-D buffer: row `b` starts at
//! `b * stride`, and the stride may exceed the logical row width (padding).

use vstd::prelude::*;

verus! {

/// Start of row `b` in a buffer of row pitch `stride`.
pub open spec fn row_base(stride: nat, b: int) -> int {
    b * stride
}

/// Element `o` of row `b` in a row-major view of `s` with row pitch `stride`.
pub open spec fn row_at(s: Seq<u32>, stride: nat, b: int, o: int) -> u32 {
    s[b * stride + o]
}

/// Every one of `count` rows of width `width`, placed at pitch `stride`,
/// lies inside a buffer of length `len`.
pub open spec fn rows_fit(len: int, count: nat, stride: nat, width: nat) -> bool {
    forall|b: int| 0 <= b < count ==> #[trigger] row_base(stride, b) + width <= len
}

/// A row boundary advances by exactly the pitch.
pub proof fn lemma_row_step(stride: nat, b: int)
    ensures
        (b + 1) * stride == b * stride + stride,
{
    assert((b + 1) * stride == b * stride + stride) by (nonlinear_arith);
}

/// An element of an earlier row lies strictly below a later row's base.
pub proof fn lemma_row_lt(stride: nat, b1: int, o: int, b2: int)
    requires
        b1 < b2,
        0 <= o < stride,
    ensures
        b1 * stride + o < b2 * stride,
{
    assert(b1 * stride + o < b2 * stride) by (nonlinear_arith)
        requires
            b1 < b2,
            0 <= o < stride,
    ;
}

/// Multiplying a smaller factor by a non-negative one gives no more.
pub proof fn lemma_scale_le(a: int, b: int, c: int)
    requires
        a <= b,
        0 <= c,
    ensures
        a * c <= b * c,
{
    assert(a * c <= b * c) by (nonlinear_arith)
        requires
            a <= b,
            0 <= c,
    ;
}

/// Clear `count` elements starting at `start` to the bit pattern of positive
/// zero; every other element is untouched.
pub fn zero_range(buf: &mut Vec<u32>, start: usize, count: usize)
    requires
        start + count <= old(buf).len(),
    ensures
        final(buf).len() == old(buf).len(),
        forall|i: int| start <= i < start + count ==> #[trigger] final(buf)@[i] == 0u32,
        forall|i: int|
            0 <= i < old(buf).len() && !(start <= i < start + count)
                ==> #[trigger] final(buf)@[i] == old(buf)@[i],
{
    let mut k: usize = 0;
    while k < count
        invariant
            k <= count,
            start + count <= buf.len(),
            buf.len() == old(buf).len(),
            forall|i: int| start <= i < start + k ==> #[trigger] buf@[i] == 0u32,
            forall|i: int|
                0 <= i < old(buf).len() && !(start <= i < start + k)
                    ==> #[trigger] buf@[i] == old(buf)@[i],
        decreases count - k,
    {
        buf[start + k] = 0u32;
        k = k + 1;
    }
}

/// Copy `count` elements from `src` starting at `src_off` into `dst`
/// starting at `dst_off`; every other element of `dst` is untouched.
pub fn copy_range(dst: &mut Vec<u32>, dst_off: usize, src: &Vec<u32>, src_off: usize, count: usize)
    requires
        dst_off + count <= old(dst).len(),
        src_off + count <= src.len(),
    ensures
        final(dst).len() == old(dst).len(),
        forall|i: int|
            dst_off <= i < dst_off + count
                ==> #[trigger] final(dst)@[i] == src@[i - dst_off + src_off],
        forall|i: int|
            0 <= i < old(dst).len() && !(dst_off <= i < dst_off + count)
                ==> #[trigger] final(dst)@[i] == old(dst)@[i],
{
    let mut k: usize = 0;
    while k < count
        invariant
            k <= count,
            dst_off + count <= dst.len(),
            src_off + count <= src.len(),
            dst.len() == old(dst).len(),
            forall|i: int|
                dst_off <= i < dst_off + k ==> #[trigger] dst@[i] == src@[i - dst_off + src_off],
            forall|i: int|
                0 <= i < old(dst).len() && !(dst_off <= i < dst_off + k) ==> #[trigger] dst@[i]
                    == old(dst)@[i],
        decreases count - k,
    {
        let v = src[src_off + k];
        dst[dst_off + k] = v;
        k = k + 1;
    }
}

} // verus!
