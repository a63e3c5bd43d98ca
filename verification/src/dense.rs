//! The fully-connected (Dense) forward kernel.
//!
//! Weight blob layout: `out_size` rows, each row = `in_size` weights
//! followed by one bias, concatenated row-major — `out_size * (in_size + 1)`
//! elements in all.

use vstd::prelude::*;

use crate::buffer::lemma_row_lt;
use crate::buffer::lemma_row_step;
use crate::buffer::lemma_scale_le;
use crate::buffer::row_at;
use crate::buffer::row_base;
use crate::buffer::rows_fit;
use crate::buffer::zero_range;
use crate::reduce::dot;
use crate::reduce::dot_spec;
use crate::scalar::ScalarOps;
use crate::sizes::clamp_size;
use crate::sizes::min_nat;
use crate::sizes::to_usize;

verus! {

/// Number of weight-blob elements a Dense blob holds: `out_size` rows of
/// `in_size` weights plus one bias each.
pub open spec fn dense_weights_len(in_size: i32, out_size: i32) -> int {
    clamp_size(out_size) * (clamp_size(in_size) as int + 1)
}

/// Value of Dense output unit `o` for the input row starting at
/// `input_base`: the host tanh of the canonical reduction of weight row `o`
/// against the input row, plus the row's bias.
pub open spec fn dense_unit_spec<S: ScalarOps>(
    ops: &S,
    w: Seq<u32>,
    x: Seq<u32>,
    input_base: int,
    in_size: int,
    o: int,
) -> u32 {
    ops.ftanh_spec(
        ops.fadd_spec(
            dot_spec(ops, w, o * (in_size + 1), x, input_base, in_size),
            w[o * (in_size + 1) + in_size],
        ),
    )
}

/// Determinism at the contract level: [`dense_forward`]'s clauses pin every
/// slot of every output row to a function of the weights, the input and the
/// shapes alone — the data slots to [`dense_unit_spec`], the padding to
/// zero. Two output buffers that both satisfy those clauses against the
/// same arguments therefore agree on every row slot: a second call on
/// identical inputs reproduces the first, and no pre-call output value can
/// reach a written row.
pub proof fn lemma_dense_output_determined<S: ScalarOps>(
    ops: &S,
    w: Seq<u32>,
    x: Seq<u32>,
    out1: Seq<u32>,
    out2: Seq<u32>,
    in_size: i32,
    out_size: i32,
    batch_count: i32,
    input_stride: i32,
    output_stride: i32,
    b: int,
    o: int,
)
    requires
        0 <= b < clamp_size(batch_count),
        0 <= o < clamp_size(output_stride),
        forall|b2: int, o2: int|
            0 <= b2 < clamp_size(batch_count) && min_nat(
                clamp_size(out_size),
                clamp_size(output_stride),
            ) <= o2 < clamp_size(output_stride) ==> #[trigger] row_at(
                out1,
                clamp_size(output_stride),
                b2,
                o2,
            ) == 0u32,
        forall|b2: int, o2: int|
            0 <= b2 < clamp_size(batch_count) && 0 <= o2 < min_nat(
                clamp_size(out_size),
                clamp_size(output_stride),
            ) ==> #[trigger] row_at(out1, clamp_size(output_stride), b2, o2) == dense_unit_spec(
                ops,
                w,
                x,
                b2 * clamp_size(input_stride),
                clamp_size(in_size) as int,
                o2,
            ),
        forall|b2: int, o2: int|
            0 <= b2 < clamp_size(batch_count) && min_nat(
                clamp_size(out_size),
                clamp_size(output_stride),
            ) <= o2 < clamp_size(output_stride) ==> #[trigger] row_at(
                out2,
                clamp_size(output_stride),
                b2,
                o2,
            ) == 0u32,
        forall|b2: int, o2: int|
            0 <= b2 < clamp_size(batch_count) && 0 <= o2 < min_nat(
                clamp_size(out_size),
                clamp_size(output_stride),
            ) ==> #[trigger] row_at(out2, clamp_size(output_stride), b2, o2) == dense_unit_spec(
                ops,
                w,
                x,
                b2 * clamp_size(input_stride),
                clamp_size(in_size) as int,
                o2,
            ),
    ensures
        row_at(out1, clamp_size(output_stride), b, o) == row_at(
            out2,
            clamp_size(output_stride),
            b,
            o,
        ),
{
}

/// One fully-connected layer plus activation, per batch row.
///
/// Per batch row `b`: the full `output_stride` span of the output row is
/// cleared to the bit pattern of zero first; then, with
/// `out_limit = min(out_size, output_stride)`, output unit `o` in
/// `[0, out_limit)` receives exactly [`dense_unit_spec`] — the activation
/// of weight row `o` against input row `b` plus bias. Units at and beyond
/// `out_limit` stay zero, and nothing at or beyond
/// `batch_count * output_stride` is touched.
///
/// All sizes are sanitized: a negative size means an empty extent.
pub fn dense_forward<S: ScalarOps>(
    ops: &S,
    weights: &Vec<u32>,
    input: &Vec<u32>,
    output: &mut Vec<u32>,
    in_size: i32,
    out_size: i32,
    batch_count: i32,
    input_stride: i32,
    output_stride: i32,
)
    requires
        rows_fit(
            input.len() as int,
            clamp_size(batch_count),
            clamp_size(input_stride),
            clamp_size(in_size),
        ),
        rows_fit(
            old(output).len() as int,
            clamp_size(batch_count),
            clamp_size(output_stride),
            clamp_size(output_stride),
        ),
        weights.len() >= min_nat(clamp_size(out_size), clamp_size(output_stride)) * (clamp_size(
            in_size,
        ) + 1),
    ensures
        final(output).len() == old(output).len(),
        forall|i: int|
            clamp_size(batch_count) * clamp_size(output_stride) <= i < old(output).len()
                ==> #[trigger] final(output)@[i] == old(output)@[i],
        forall|b: int, o: int|
            0 <= b < clamp_size(batch_count) && min_nat(
                clamp_size(out_size),
                clamp_size(output_stride),
            ) <= o < clamp_size(output_stride) ==> #[trigger] row_at(
                final(output)@,
                clamp_size(output_stride),
                b,
                o,
            ) == 0u32,
        forall|b: int, o: int|
            0 <= b < clamp_size(batch_count) && 0 <= o < min_nat(
                clamp_size(out_size),
                clamp_size(output_stride),
            ) ==> #[trigger] row_at(final(output)@, clamp_size(output_stride), b, o)
                == dense_unit_spec(
                ops,
                weights@,
                input@,
                b * clamp_size(input_stride),
                clamp_size(in_size) as int,
                o,
            ),
{
    let isz = to_usize(in_size);
    let osz = to_usize(out_size);
    let bc = to_usize(batch_count);
    let istr = to_usize(input_stride);
    let ostr = to_usize(output_stride);
    let out_limit = if osz < ostr {
        osz
    } else {
        ostr
    };
    let mut b: usize = 0;
    while b < bc
        invariant
            b <= bc,
            isz == clamp_size(in_size),
            osz == clamp_size(out_size),
            bc == clamp_size(batch_count),
            istr == clamp_size(input_stride),
            ostr == clamp_size(output_stride),
            out_limit == min_nat(osz as nat, ostr as nat),
            rows_fit(input.len() as int, bc as nat, istr as nat, isz as nat),
            rows_fit(old(output).len() as int, bc as nat, ostr as nat, ostr as nat),
            weights.len() >= out_limit * (isz + 1),
            output.len() == old(output).len(),
            forall|i: int|
                row_base(ostr as nat, b as int) <= i < output.len() ==> #[trigger] output@[i]
                    == old(output)@[i],
            forall|b2: int, o2: int|
                0 <= b2 < b && out_limit <= o2 < ostr ==> #[trigger] row_at(
                    output@,
                    ostr as nat,
                    b2,
                    o2,
                ) == 0u32,
            forall|b2: int, o2: int|
                0 <= b2 < b && 0 <= o2 < out_limit ==> #[trigger] row_at(
                    output@,
                    ostr as nat,
                    b2,
                    o2,
                ) == dense_unit_spec(ops, weights@, input@, b2 * (istr as int), isz as int, o2),
        decreases bc - b,
    {
        proof {
            assert(row_base(ostr as nat, b as int) + ostr <= output.len());
            assert(row_base(istr as nat, b as int) + isz <= input.len());
        }
        let output_base = b * ostr;
        let input_base = b * istr;
        let ghost pre_zero = output@;
        zero_range(output, output_base, ostr);
        proof {
            assert forall|b2: int, o2: int|
                0 <= b2 < b && 0 <= o2 < ostr implies #[trigger] row_at(
                output@,
                ostr as nat,
                b2,
                o2,
            ) == row_at(pre_zero, ostr as nat, b2, o2) by {
                lemma_row_lt(ostr as nat, b2, o2, b as int);
            }
        }
        let mut w_index: usize = 0;
        let mut o: usize = 0;
        while o < out_limit
            invariant
                o <= out_limit,
                w_index == o * (isz + 1),
                b < bc,
                isz == clamp_size(in_size),
                bc == clamp_size(batch_count),
                istr == clamp_size(input_stride),
                ostr == clamp_size(output_stride),
                out_limit <= ostr,
                weights.len() >= out_limit * (isz + 1),
                input_base == row_base(istr as nat, b as int),
                output_base == row_base(ostr as nat, b as int),
                input_base + isz <= input.len(),
                output_base + ostr <= output.len(),
                output.len() == old(output).len(),
                forall|i: int|
                    output_base + ostr <= i < output.len() ==> #[trigger] output@[i] == old(
                        output,
                    )@[i],
                forall|i: int|
                    output_base + out_limit <= i < output_base + ostr ==> #[trigger] output@[i]
                        == 0u32,
                forall|i: int|
                    output_base <= i < output_base + o ==> #[trigger] output@[i]
                        == dense_unit_spec(
                        ops,
                        weights@,
                        input@,
                        input_base as int,
                        isz as int,
                        i - output_base,
                    ),
                forall|b2: int, o2: int|
                    0 <= b2 < b && out_limit <= o2 < ostr ==> #[trigger] row_at(
                        output@,
                        ostr as nat,
                        b2,
                        o2,
                    ) == 0u32,
                forall|b2: int, o2: int|
                    0 <= b2 < b && 0 <= o2 < out_limit ==> #[trigger] row_at(
                        output@,
                        ostr as nat,
                        b2,
                        o2,
                    ) == dense_unit_spec(ops, weights@, input@, b2 * (istr as int), isz as int, o2),
            decreases out_limit - o,
        {
            proof {
                lemma_scale_le(o as int + 1, out_limit as int, isz as int + 1);
                lemma_row_step((isz + 1) as nat, o as int);
            }
            let sum = dot(ops, weights, w_index, input, input_base, isz);
            let bias = weights[w_index + isz];
            w_index = w_index + isz + 1;
            let v = ops.ftanh(ops.fadd(sum, bias));
            let ghost pre_write = output@;
            output[output_base + o] = v;
            proof {
                assert forall|b2: int, o2: int|
                    0 <= b2 < b && 0 <= o2 < ostr implies #[trigger] row_at(
                    output@,
                    ostr as nat,
                    b2,
                    o2,
                ) == row_at(pre_write, ostr as nat, b2, o2) by {
                    lemma_row_lt(ostr as nat, b2, o2, b as int);
                }
                assert(output@[output_base + o] == dense_unit_spec(
                    ops,
                    weights@,
                    input@,
                    input_base as int,
                    isz as int,
                    o as int,
                ));
            }
            o = o + 1;
        }
        proof {
            lemma_row_step(ostr as nat, b as int);
            assert forall|b2: int, o2: int|
                0 <= b2 < b + 1 && out_limit <= o2 < ostr implies #[trigger] row_at(
                output@,
                ostr as nat,
                b2,
                o2,
            ) == 0u32 by {
                if b2 == b as int {
                    assert(output@[b2 * (ostr as nat) + o2] == 0u32);
                }
            }
            assert forall|b2: int, o2: int|
                0 <= b2 < b + 1 && 0 <= o2 < out_limit implies #[trigger] row_at(
                output@,
                ostr as nat,
                b2,
                o2,
            ) == dense_unit_spec(ops, weights@, input@, b2 * (istr as int), isz as int, o2) by {
                if b2 == b as int {
                    assert(output@[b2 * (ostr as nat) + o2] == dense_unit_spec(
                        ops,
                        weights@,
                        input@,
                        input_base as int,
                        isz as int,
                        o2,
                    ));
                }
            }
        }
        b = b + 1;
    }
    proof {
        assert(row_base(ostr as nat, bc as int) == clamp_size(batch_count) * clamp_size(
            output_stride,
        ));
    }
}

} // verus!
