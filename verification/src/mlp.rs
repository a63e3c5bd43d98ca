//! The MLP forward kernel: a sequential stack of Dense-equivalent layers
//! sharing a caller-provided ping-pong scratch buffer.
//!
//! The weight blob is the concatenation of each layer pair's Dense-style
//! block (`outs` rows of `ins` weights plus one bias), in layer order, with
//! no separators.

use vstd::prelude::*;

use crate::buffer::lemma_row_lt;
use crate::buffer::lemma_row_step;
use crate::buffer::lemma_scale_le;
use crate::buffer::copy_range;
use crate::buffer::row_at;
use crate::buffer::row_base;
use crate::buffer::rows_fit;
use crate::buffer::zero_range;
use crate::reduce::dot;
use crate::reduce::dot_spec;
use crate::reduce::lemma_dot_spec_same_range;
use crate::scalar::ScalarOps;
use crate::sizes::clamp_size;
use crate::sizes::min_nat;
use crate::sizes::to_usize;

verus! {

/// Widest sanitized layer width among the first `count` entries.
pub open spec fn max_width(sizes: Seq<i32>, count: int) -> nat
    decreases count,
{
    if count <= 0 {
        0
    } else {
        let prev = max_width(sizes, count - 1);
        let cur = clamp_size(sizes[count - 1]);
        if cur > prev {
            cur
        } else {
            prev
        }
    }
}

/// Weight-blob offset of the block of layer pair `l` — the Dense-style
/// block that maps layer `l` to layer `l + 1` (the concatenation of the
/// blocks of all earlier pairs).
pub open spec fn mlp_weight_off(sizes: Seq<i32>, l: int) -> int
    decreases l,
{
    if l <= 0 {
        0
    } else {
        mlp_weight_off(sizes, l - 1) + clamp_size(sizes[l]) * (clamp_size(sizes[l - 1]) + 1)
    }
}

/// The guard conditions under which the whole MLP call is a silent no-op:
/// fewer than two layers, a widest layer of width zero, or a scratch buffer
/// declared shorter than two working vectors of the widest width.
pub open spec fn mlp_noop(sizes: Seq<i32>, layer_count: i32, scratch_len: i32) -> bool {
    ||| clamp_size(layer_count) < 2
    ||| max_width(sizes, clamp_size(layer_count) as int) == 0
    ||| clamp_size(scratch_len) < 2 * max_width(sizes, clamp_size(layer_count) as int)
}

/// The whole vector of layer `l`, as a sequence of [`mlp_value_spec`]
/// values.
pub open spec fn mlp_layer_seq<S: ScalarOps>(
    ops: &S,
    w: Seq<u32>,
    sizes: Seq<i32>,
    x: Seq<u32>,
    input_base: int,
    l: int,
) -> Seq<u32>
    decreases l, 1int,
{
    Seq::new(
        clamp_size(sizes[l]),
        |k: int| mlp_value_spec(ops, w, sizes, x, input_base, l, k),
    )
}

/// Value of unit `o` of the vector after layer `l` of the stack, for the
/// batch row whose input starts at `input_base`: layer 0 is the input row
/// itself; each later layer applies the Dense algebra — the canonical
/// reduction of its weight row against the previous layer's vector, plus
/// bias, then the host tanh.
pub open spec fn mlp_value_spec<S: ScalarOps>(
    ops: &S,
    w: Seq<u32>,
    sizes: Seq<i32>,
    x: Seq<u32>,
    input_base: int,
    l: int,
    o: int,
) -> u32
    decreases l, 0int,
{
    if l <= 0 {
        x[input_base + o]
    } else {
        let ins = clamp_size(sizes[l - 1]) as int;
        let row = mlp_weight_off(sizes, l - 1) + o * (ins + 1);
        ops.ftanh_spec(
            ops.fadd_spec(
                dot_spec(ops, w, row, mlp_layer_seq(ops, w, sizes, x, input_base, l - 1), 0, ins),
                w[row + ins],
            ),
        )
    }
}

/// Every sanitized layer width stays within the signed 32-bit range.
proof fn lemma_max_width_bound(sizes: Seq<i32>, count: int)
    ensures
        max_width(sizes, count) <= 0x7fff_ffff,
    decreases count,
{
    if count > 0 {
        lemma_max_width_bound(sizes, count - 1);
    }
}

/// Each of the first `count` sanitized widths is at most the maximum.
proof fn lemma_max_width_ge(sizes: Seq<i32>, count: int, l: int)
    requires
        0 <= l < count,
    ensures
        clamp_size(sizes[l]) <= max_width(sizes, count),
    decreases count,
{
    if l < count - 1 {
        lemma_max_width_ge(sizes, count - 1, l);
    }
}

/// Weight-blob offsets are non-negative and non-decreasing in the layer
/// index.
proof fn lemma_weight_off_mono(sizes: Seq<i32>, l1: int, l2: int)
    requires
        0 <= l1 <= l2,
    ensures
        0 <= mlp_weight_off(sizes, l1) <= mlp_weight_off(sizes, l2),
    decreases l2,
{
    if l1 < l2 {
        lemma_weight_off_mono(sizes, l1, l2 - 1);
        lemma_scale_le(0, clamp_size(sizes[l2]) as int, clamp_size(sizes[l2 - 1]) as int + 1);
    } else if l1 == l2 && l1 > 0 {
        lemma_weight_off_mono(sizes, 0, l1 - 1);
        lemma_scale_le(0, clamp_size(sizes[l1]) as int, clamp_size(sizes[l1 - 1]) as int + 1);
    }
}

/// A stack of fewer than two layers, or a scratch buffer declared even one
/// element shorter than two working vectors of the widest layer width,
/// forces the silent no-op guard, under which [`mlp_forward`] leaves both
/// the output and the scratch buffer exactly as they were.
pub proof fn lemma_mlp_guards_force_no_op(sizes: Seq<i32>, layer_count: i32, scratch_len: i32)
    ensures
        clamp_size(layer_count) < 2 ==> mlp_noop(sizes, layer_count, scratch_len),
        clamp_size(scratch_len) < 2 * max_width(sizes, clamp_size(layer_count) as int)
            ==> mlp_noop(sizes, layer_count, scratch_len),
{
}

/// The MLP weight blob is the concatenation of Dense-style blocks with no
/// separators: the block of each layer pair begins exactly where the
/// previous pair's Dense blob ends, so a stack reads the same elements as
/// chained Dense calls over matching sub-blocks.
pub proof fn lemma_mlp_blob_is_chained_dense_blobs(sizes: Seq<i32>, l: int)
    requires
        1 <= l,
    ensures
        mlp_weight_off(sizes, l) == mlp_weight_off(sizes, l - 1) + crate::dense::dense_weights_len(
            sizes[l - 1],
            sizes[l],
        ),
{
}

/// A two-entry layer descriptor is exactly one Dense layer: the value the
/// stack assigns to an output unit after its single layer pair is the
/// Dense unit value over the same weight blob and the same input row.
pub proof fn lemma_two_layer_stack_is_dense<S: ScalarOps>(
    ops: &S,
    w: Seq<u32>,
    sizes: Seq<i32>,
    x: Seq<u32>,
    input_base: int,
    o: int,
)
    ensures
        mlp_value_spec(ops, w, sizes, x, input_base, 1, o) == crate::dense::dense_unit_spec(
            ops,
            w,
            x,
            input_base,
            clamp_size(sizes[0]) as int,
            o,
        ),
{
    let ins = clamp_size(sizes[0]) as int;
    assert forall|i: int|
        0 <= i < 0 + ins implies mlp_layer_seq(ops, w, sizes, x, input_base, 0)[i] == x[i - 0
        + input_base] by {
        assert(mlp_layer_seq(ops, w, sizes, x, input_base, 0)[i] == mlp_value_spec(
            ops,
            w,
            sizes,
            x,
            input_base,
            0,
            i,
        ));
    }
    lemma_dot_spec_same_range(
        ops,
        w,
        o * (ins + 1),
        mlp_layer_seq(ops, w, sizes, x, input_base, 0),
        0,
        x,
        input_base,
        ins,
    );
}

/// A sequential stack of Dense-equivalent layers over a ping-pong scratch
/// buffer.
///
/// Per batch row: the input row (width = first layer size) is copied into
/// the current scratch half; each adjacent layer pair applies the Dense
/// algebra into the other half, then the halves swap; finally the full
/// `output_stride` span of the output row is cleared and the current half
/// is copied in. Output unit `o` below `min(last width, output_stride)`
/// receives exactly [`mlp_value_spec`] of the last layer — the per-layer
/// Dense composition over the input row — and the padding beyond it stays
/// exactly zero. When any guard of [`mlp_noop`] holds, nothing is written
/// at all. Nothing at or beyond `batch_count * output_stride` of the
/// output, nor at or beyond twice the widest layer width of the scratch,
/// is ever touched.
pub fn mlp_forward<S: ScalarOps>(
    ops: &S,
    weights: &Vec<u32>,
    layer_sizes: &Vec<i32>,
    input: &Vec<u32>,
    output: &mut Vec<u32>,
    layer_count: i32,
    batch_count: i32,
    input_stride: i32,
    output_stride: i32,
    scratch: &mut Vec<u32>,
    scratch_len: i32,
)
    requires
        clamp_size(layer_count) >= 2 ==> clamp_size(layer_count) <= layer_sizes.len(),
        !mlp_noop(layer_sizes@, layer_count, scratch_len) ==> rows_fit(
            input.len() as int,
            clamp_size(batch_count),
            clamp_size(input_stride),
            clamp_size(layer_sizes@[0]),
        ),
        !mlp_noop(layer_sizes@, layer_count, scratch_len) ==> rows_fit(
            old(output).len() as int,
            clamp_size(batch_count),
            clamp_size(output_stride),
            clamp_size(output_stride),
        ),
        !mlp_noop(layer_sizes@, layer_count, scratch_len) ==> clamp_size(scratch_len) <= old(
            scratch,
        ).len(),
        !mlp_noop(layer_sizes@, layer_count, scratch_len) ==> weights.len() >= mlp_weight_off(
            layer_sizes@,
            clamp_size(layer_count) - 1,
        ),
    ensures
        final(output).len() == old(output).len(),
        final(scratch).len() == old(scratch).len(),
        mlp_noop(layer_sizes@, layer_count, scratch_len) ==> final(output)@ == old(output)@
            && final(scratch)@ == old(scratch)@,
        forall|i: int|
            clamp_size(batch_count) * clamp_size(output_stride) <= i < old(output).len()
                ==> #[trigger] final(output)@[i] == old(output)@[i],
        !mlp_noop(layer_sizes@, layer_count, scratch_len) ==> forall|i: int|
            2 * max_width(layer_sizes@, clamp_size(layer_count) as int) <= i < old(scratch).len()
                ==> #[trigger] final(scratch)@[i] == old(scratch)@[i],
        !mlp_noop(layer_sizes@, layer_count, scratch_len) ==> forall|b: int, o: int|
            0 <= b < clamp_size(batch_count) && min_nat(
                clamp_size(layer_sizes@[clamp_size(layer_count) - 1]),
                clamp_size(output_stride),
            ) <= o < clamp_size(output_stride) ==> #[trigger] row_at(
                final(output)@,
                clamp_size(output_stride),
                b,
                o,
            ) == 0u32,
        !mlp_noop(layer_sizes@, layer_count, scratch_len) ==> forall|b: int, o: int|
            0 <= b < clamp_size(batch_count) && 0 <= o < min_nat(
                clamp_size(layer_sizes@[clamp_size(layer_count) - 1]),
                clamp_size(output_stride),
            ) ==> #[trigger] row_at(final(output)@, clamp_size(output_stride), b, o)
                == mlp_value_spec(
                ops,
                weights@,
                layer_sizes@,
                input@,
                b * clamp_size(input_stride),
                clamp_size(layer_count) - 1,
                o,
            ),
{
    let lc = to_usize(layer_count);
    if lc < 2 {
        return ;
    }
    let bcn = to_usize(batch_count);
    let istr = to_usize(input_stride);
    let ostr = to_usize(output_stride);
    let scr_len = to_usize(scratch_len);
    let mut max_size: usize = 0;
    let mut l: usize = 0;
    while l < lc
        invariant
            l <= lc,
            lc == clamp_size(layer_count),
            2 <= lc <= layer_sizes.len(),
            max_size == max_width(layer_sizes@, l as int),
        decreases lc - l,
    {
        let s = to_usize(layer_sizes[l]);
        if s > max_size {
            max_size = s;
        }
        l = l + 1;
    }
    if max_size == 0 {
        return ;
    }
    proof {
        lemma_max_width_bound(layer_sizes@, lc as int);
    }
    if scr_len < 2 * max_size {
        return ;
    }
    proof {
        assert(!mlp_noop(layer_sizes@, layer_count, scratch_len));
        lemma_weight_off_mono(layer_sizes@, 0, lc as int - 1);
    }
    let mut cur_off: usize = 0;
    let mut next_off: usize = max_size;
    let mut b: usize = 0;
    while b < bcn
        invariant
            b <= bcn,
            lc == clamp_size(layer_count),
            2 <= lc <= layer_sizes.len(),
            bcn == clamp_size(batch_count),
            istr == clamp_size(input_stride),
            ostr == clamp_size(output_stride),
            max_size == max_width(layer_sizes@, lc as int),
            max_size > 0,
            scr_len == clamp_size(scratch_len),
            2 * max_size <= scr_len <= scratch.len(),
            !mlp_noop(layer_sizes@, layer_count, scratch_len),
            cur_off == 0 && next_off == max_size || cur_off == max_size && next_off == 0,
            rows_fit(
                input.len() as int,
                bcn as nat,
                istr as nat,
                clamp_size(layer_sizes@[0]),
            ),
            rows_fit(old(output).len() as int, bcn as nat, ostr as nat, ostr as nat),
            weights.len() >= mlp_weight_off(layer_sizes@, lc as int - 1),
            output.len() == old(output).len(),
            scratch.len() == old(scratch).len(),
            forall|i: int|
                2 * max_size <= i < scratch.len() ==> #[trigger] scratch@[i] == old(scratch)@[i],
            forall|i: int|
                row_base(ostr as nat, b as int) <= i < output.len() ==> #[trigger] output@[i]
                    == old(output)@[i],
            forall|b2: int, o2: int|
                0 <= b2 < b && min_nat(
                    clamp_size(layer_sizes@[lc - 1]),
                    ostr as nat,
                ) <= o2 < ostr ==> #[trigger] row_at(output@, ostr as nat, b2, o2) == 0u32,
            forall|b2: int, o2: int|
                0 <= b2 < b && 0 <= o2 < min_nat(
                    clamp_size(layer_sizes@[lc - 1]),
                    ostr as nat,
                ) ==> #[trigger] row_at(output@, ostr as nat, b2, o2) == mlp_value_spec(
                    ops,
                    weights@,
                    layer_sizes@,
                    input@,
                    b2 * (istr as int),
                    lc as int - 1,
                    o2,
                ),
        decreases bcn - b,
    {
        proof {
            assert(row_base(istr as nat, b as int) + clamp_size(layer_sizes@[0]) <= input.len());
            assert(row_base(ostr as nat, b as int) + ostr <= output.len());
            lemma_max_width_ge(layer_sizes@, lc as int, 0);
            lemma_row_step(ostr as nat, b as int);
        }
        let input_base = b * istr;
        let input_size = to_usize(layer_sizes[0]);
        copy_range(scratch, cur_off, input, input_base, input_size);
        let mut w_index: usize = 0;
        let mut l: usize = 0;
        while l < lc - 1
            invariant
                l <= lc - 1,
                lc == clamp_size(layer_count),
                2 <= lc <= layer_sizes.len(),
                b < bcn,
                istr == clamp_size(input_stride),
                ostr == clamp_size(output_stride),
                input_base == row_base(istr as nat, b as int),
                input_base + clamp_size(layer_sizes@[0]) <= input.len(),
                max_size == max_width(layer_sizes@, lc as int),
                max_size > 0,
                2 * max_size <= scratch.len(),
                cur_off == 0 && next_off == max_size || cur_off == max_size && next_off == 0,
                weights.len() >= mlp_weight_off(layer_sizes@, lc as int - 1),
                w_index == mlp_weight_off(layer_sizes@, l as int),
                output.len() == old(output).len(),
                scratch.len() == old(scratch).len(),
                forall|i: int|
                    cur_off <= i < cur_off + clamp_size(layer_sizes@[l as int])
                        ==> #[trigger] scratch@[i] == mlp_value_spec(
                        ops,
                        weights@,
                        layer_sizes@,
                        input@,
                        input_base as int,
                        l as int,
                        i - cur_off,
                    ),
                forall|i: int|
                    2 * max_size <= i < scratch.len() ==> #[trigger] scratch@[i] == old(
                        scratch,
                    )@[i],
                forall|i: int|
                    row_base(ostr as nat, b as int) <= i < output.len() ==> #[trigger] output@[i]
                        == old(output)@[i],
                forall|b2: int, o2: int|
                    0 <= b2 < b && min_nat(
                        clamp_size(layer_sizes@[lc - 1]),
                        ostr as nat,
                    ) <= o2 < ostr ==> #[trigger] row_at(output@, ostr as nat, b2, o2) == 0u32,
                forall|b2: int, o2: int|
                    0 <= b2 < b && 0 <= o2 < min_nat(
                        clamp_size(layer_sizes@[lc - 1]),
                        ostr as nat,
                    ) ==> #[trigger] row_at(output@, ostr as nat, b2, o2) == mlp_value_spec(
                        ops,
                        weights@,
                        layer_sizes@,
                        input@,
                        b2 * (istr as int),
                        lc as int - 1,
                        o2,
                    ),
            decreases lc - 1 - l,
        {
            let ins = to_usize(layer_sizes[l]);
            let outs = to_usize(layer_sizes[l + 1]);
            proof {
                lemma_max_width_ge(layer_sizes@, lc as int, l as int);
                lemma_max_width_ge(layer_sizes@, lc as int, l as int + 1);
                lemma_weight_off_mono(layer_sizes@, l as int + 1, lc as int - 1);
                lemma_weight_off_mono(layer_sizes@, 0, l as int);
                lemma_scale_le(0, outs as int, ins as int + 1);
            }
            let mut o: usize = 0;
            while o < outs
                invariant
                    o <= outs,
                    l < lc - 1,
                    lc <= layer_sizes.len(),
                    ins == clamp_size(layer_sizes@[l as int]),
                    outs == clamp_size(layer_sizes@[l as int + 1]),
                    ins <= max_size,
                    outs <= max_size,
                    max_size > 0,
                    2 * max_size <= scratch.len(),
                    cur_off == 0 && next_off == max_size || cur_off == max_size && next_off == 0,
                    w_index == mlp_weight_off(layer_sizes@, l as int) + o * (ins + 1),
                    mlp_weight_off(layer_sizes@, l as int) + outs * (ins + 1) == mlp_weight_off(
                        layer_sizes@,
                        l as int + 1,
                    ),
                    0 <= mlp_weight_off(layer_sizes@, l as int),
                    mlp_weight_off(layer_sizes@, l as int + 1) <= weights.len(),
                    output.len() == old(output).len(),
                    scratch.len() == old(scratch).len(),
                    forall|i: int|
                        cur_off <= i < cur_off + clamp_size(layer_sizes@[l as int])
                            ==> #[trigger] scratch@[i] == mlp_value_spec(
                            ops,
                            weights@,
                            layer_sizes@,
                            input@,
                            input_base as int,
                            l as int,
                            i - cur_off,
                        ),
                    forall|i: int|
                        next_off <= i < next_off + o ==> #[trigger] scratch@[i] == mlp_value_spec(
                            ops,
                            weights@,
                            layer_sizes@,
                            input@,
                            input_base as int,
                            l as int + 1,
                            i - next_off,
                        ),
                    forall|i: int|
                        2 * max_size <= i < scratch.len() ==> #[trigger] scratch@[i] == old(
                            scratch,
                        )@[i],
                    forall|i: int|
                        row_base(ostr as nat, b as int) <= i < output.len()
                            ==> #[trigger] output@[i] == old(output)@[i],
                    forall|b2: int, o2: int|
                        0 <= b2 < b && min_nat(
                            clamp_size(layer_sizes@[lc - 1]),
                            ostr as nat,
                        ) <= o2 < ostr ==> #[trigger] row_at(output@, ostr as nat, b2, o2)
                            == 0u32,
                    forall|b2: int, o2: int|
                        0 <= b2 < b && 0 <= o2 < min_nat(
                            clamp_size(layer_sizes@[lc - 1]),
                            ostr as nat,
                        ) ==> #[trigger] row_at(output@, ostr as nat, b2, o2) == mlp_value_spec(
                            ops,
                            weights@,
                            layer_sizes@,
                            input@,
                            b2 * (istr as int),
                            lc as int - 1,
                            o2,
                        ),
                decreases outs - o,
            {
                proof {
                    lemma_scale_le(o as int + 1, outs as int, ins as int + 1);
                    lemma_row_step((ins + 1) as nat, o as int);
                    assert forall|i: int|
                        cur_off <= i < cur_off + ins implies scratch@[i] == mlp_layer_seq(
                        ops,
                        weights@,
                        layer_sizes@,
                        input@,
                        input_base as int,
                        l as int,
                    )[i - (cur_off as int) + 0] by {
                        assert(scratch@[i] == mlp_value_spec(
                            ops,
                            weights@,
                            layer_sizes@,
                            input@,
                            input_base as int,
                            l as int,
                            i - cur_off,
                        ));
                    }
                    lemma_dot_spec_same_range(
                        ops,
                        weights@,
                        w_index as int,
                        scratch@,
                        cur_off as int,
                        mlp_layer_seq(
                            ops,
                            weights@,
                            layer_sizes@,
                            input@,
                            input_base as int,
                            l as int,
                        ),
                        0,
                        ins as int,
                    );
                }
                let sum = dot(ops, weights, w_index, scratch, cur_off, ins);
                let bias = weights[w_index + ins];
                w_index = w_index + ins + 1;
                let v = ops.ftanh(ops.fadd(sum, bias));
                scratch[next_off + o] = v;
                proof {
                    assert(scratch@[next_off + o] == mlp_value_spec(
                        ops,
                        weights@,
                        layer_sizes@,
                        input@,
                        input_base as int,
                        l as int + 1,
                        o as int,
                    ));
                }
                o = o + 1;
            }
            let tmp: usize = cur_off;
            cur_off = next_off;
            next_off = tmp;
            l = l + 1;
        }
        let out_size = to_usize(layer_sizes[lc - 1]);
        let out_limit = if out_size < ostr {
            out_size
        } else {
            ostr
        };
        proof {
            lemma_max_width_ge(layer_sizes@, lc as int, lc as int - 1);
        }
        let output_base = b * ostr;
        let ghost pre_zero = output@;
        zero_range(output, output_base, ostr);
        let ghost pre_copy = output@;
        copy_range(output, output_base, scratch, cur_off, out_limit);
        proof {
            assert forall|b2: int, o2: int|
                0 <= b2 < b + 1 && min_nat(
                    clamp_size(layer_sizes@[lc - 1]),
                    ostr as nat,
                ) <= o2 < ostr implies #[trigger] row_at(output@, ostr as nat, b2, o2)
                == 0u32 by {
                if b2 == b as int {
                    assert(output@[b2 * (ostr as nat) + o2] == pre_copy[b2 * (ostr as nat) + o2]);
                    assert(pre_copy[b2 * (ostr as nat) + o2] == 0u32);
                } else {
                    lemma_row_lt(ostr as nat, b2, o2, b as int);
                    assert(row_at(pre_zero, ostr as nat, b2, o2) == 0u32);
                    assert(pre_copy[b2 * (ostr as nat) + o2] == pre_zero[b2 * (ostr as nat) + o2]);
                    assert(output@[b2 * (ostr as nat) + o2] == pre_copy[b2 * (ostr as nat) + o2]);
                }
            }
            assert forall|b2: int, o2: int|
                0 <= b2 < b + 1 && 0 <= o2 < min_nat(
                    clamp_size(layer_sizes@[lc - 1]),
                    ostr as nat,
                ) implies #[trigger] row_at(output@, ostr as nat, b2, o2) == mlp_value_spec(
                ops,
                weights@,
                layer_sizes@,
                input@,
                b2 * (istr as int),
                lc as int - 1,
                o2,
            ) by {
                if b2 == b as int {
                    assert(output@[b2 * (ostr as nat) + o2] == scratch@[cur_off + o2]);
                    assert(scratch@[cur_off + o2] == mlp_value_spec(
                        ops,
                        weights@,
                        layer_sizes@,
                        input@,
                        input_base as int,
                        lc as int - 1,
                        o2,
                    ));
                } else {
                    lemma_row_lt(ostr as nat, b2, o2, b as int);
                    assert(row_at(pre_zero, ostr as nat, b2, o2) == mlp_value_spec(
                        ops,
                        weights@,
                        layer_sizes@,
                        input@,
                        b2 * (istr as int),
                        lc as int - 1,
                        o2,
                    ));
                    assert(pre_copy[b2 * (ostr as nat) + o2] == pre_zero[b2 * (ostr as nat) + o2]);
                    assert(output@[b2 * (ostr as nat) + o2] == pre_copy[b2 * (ostr as nat) + o2]);
                }
            }
        }
        b = b + 1;
    }
    proof {
        assert(row_base(ostr as nat, bcn as int) == clamp_size(batch_count) * clamp_size(
            output_stride,
        ));
    }
}

} // verus!
