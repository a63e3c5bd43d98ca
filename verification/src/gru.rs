//! The GRU single-step kernel.
//!
//! Weight blob layout, in this exact order: `W_z, W_r, W_h` (each
//! `hidden_size x in_size`), then `U_z, U_r, U_h` (each
//! `hidden_size x hidden_size`), then `b_z, b_r, b_h` (each `hidden_size`).

use vstd::prelude::*;

use crate::buffer::lemma_row_lt;
use crate::buffer::lemma_row_step;
use crate::buffer::lemma_scale_le;
use crate::buffer::copy_range;
use crate::buffer::row_at;
use crate::buffer::row_base;
use crate::buffer::rows_fit;
use crate::reduce::dot;
use crate::reduce::dot_mul;
use crate::reduce::dot_spec;
use crate::reduce::dot_mul_spec;
use crate::reduce::gate_pre_spec;
use crate::reduce::lemma_dot_mul_spec_same_range;
use crate::reduce::lemma_dot_spec_same_range;
use crate::scalar::sigmoid;
use crate::scalar::sigmoid_spec;
use crate::scalar::ScalarOps;
use crate::scalar::ONE_BITS;
use crate::sizes::clamp_size;
use crate::sizes::rnn_noop;
use crate::sizes::to_usize;

verus! {

/// Number of weight-blob elements one GRU step reads: three input-to-gate
/// blocks, three hidden-to-gate blocks, three bias rows.
pub open spec fn gru_weights_len(in_size: i32, hidden_size: i32) -> int {
    let is = clamp_size(in_size) as int;
    let hs = clamp_size(hidden_size) as int;
    3 * (hs * is) + 3 * (hs * hs) + 3 * hs
}

/// Update gate of hidden unit `j` of batch row `b`: the host sigmoid of
/// the `W_z`/`U_z` gate pre-activation against the input row and the
/// previous hidden row.
pub open spec fn gru_z_value<S: ScalarOps>(
    ops: &S,
    w: Seq<u32>,
    x: Seq<u32>,
    h0: Seq<u32>,
    in_size: i32,
    hidden_size: i32,
    input_stride: i32,
    b: int,
    j: int,
) -> u32 {
    let is = clamp_size(in_size) as int;
    let hs = clamp_size(hidden_size) as int;
    sigmoid_spec(
        ops,
        gate_pre_spec(
            ops,
            w,
            j * is,
            3 * (hs * is) + j * hs,
            3 * (hs * is) + 3 * (hs * hs) + j,
            x,
            b * clamp_size(input_stride),
            is,
            h0,
            b * hs,
            hs,
        ),
    )
}

/// Reset gate of hidden unit `j` of batch row `b`: the host sigmoid of the
/// `W_r`/`U_r` gate pre-activation.
pub open spec fn gru_r_value<S: ScalarOps>(
    ops: &S,
    w: Seq<u32>,
    x: Seq<u32>,
    h0: Seq<u32>,
    in_size: i32,
    hidden_size: i32,
    input_stride: i32,
    b: int,
    j: int,
) -> u32 {
    let is = clamp_size(in_size) as int;
    let hs = clamp_size(hidden_size) as int;
    sigmoid_spec(
        ops,
        gate_pre_spec(
            ops,
            w,
            (hs * is) + j * is,
            3 * (hs * is) + (hs * hs) + j * hs,
            3 * (hs * is) + 3 * (hs * hs) + hs + j,
            x,
            b * clamp_size(input_stride),
            is,
            h0,
            b * hs,
            hs,
        ),
    )
}

/// New hidden value of unit `j` of batch row `b`: the convex blend
/// `(1 - z) * previous + z * tanh(W_h.x + U_h.(r (.) h_prev) + b_h)`, in
/// the host's arithmetic, where the reset row `r` is the row of
/// [`gru_r_value`] gates of the same batch row.
pub open spec fn gru_h_value<S: ScalarOps>(
    ops: &S,
    w: Seq<u32>,
    x: Seq<u32>,
    h0: Seq<u32>,
    in_size: i32,
    hidden_size: i32,
    input_stride: i32,
    b: int,
    j: int,
) -> u32 {
    let is = clamp_size(in_size) as int;
    let hs = clamp_size(hidden_size) as int;
    let z = gru_z_value(ops, w, x, h0, in_size, hidden_size, input_stride, b, j);
    let r_row = Seq::new(
        clamp_size(hidden_size),
        |k: int| gru_r_value(ops, w, x, h0, in_size, hidden_size, input_stride, b, k),
    );
    let h_tilde = ops.ftanh_spec(
        ops.fadd_spec(
            ops.fadd_spec(
                dot_spec(ops, w, 2 * (hs * is) + j * is, x, b * clamp_size(input_stride), is),
                dot_mul_spec(
                    ops,
                    w,
                    3 * (hs * is) + 2 * (hs * hs) + j * hs,
                    r_row,
                    0,
                    h0,
                    b * hs,
                    hs,
                ),
            ),
            w[3 * (hs * is) + 3 * (hs * hs) + 2 * hs + j],
        ),
    );
    ops.fadd_spec(
        ops.fmul_spec(ops.fsub_spec(ONE_BITS, z), h0[b * hs + j]),
        ops.fmul_spec(z, h_tilde),
    )
}

/// One GRU recurrence update per batch row.
///
/// Per batch row, the previous hidden state is first snapshotted into
/// `h_prev`, so that every hidden unit of the row reads the same pre-update
/// vector; unit `j` of the update gate buffer `z` receives exactly
/// [`gru_z_value`], of the reset gate buffer `r` exactly [`gru_r_value`],
/// and of the hidden state `h`, overwritten in place, exactly
/// [`gru_h_value`]. A zero (or negative) `in_size`, `hidden_size` or
/// `batch_count` makes the whole call a silent no-op. Nothing at or beyond
/// `batch_count * hidden_size` is touched in any state buffer.
pub fn gru_step<S: ScalarOps>(
    ops: &S,
    weights: &Vec<u32>,
    input: &Vec<u32>,
    h: &mut Vec<u32>,
    z: &mut Vec<u32>,
    r: &mut Vec<u32>,
    h_prev: &mut Vec<u32>,
    in_size: i32,
    hidden_size: i32,
    batch_count: i32,
    input_stride: i32,
)
    requires
        !rnn_noop(in_size, hidden_size, batch_count) ==> rows_fit(
            input.len() as int,
            clamp_size(batch_count),
            clamp_size(input_stride),
            clamp_size(in_size),
        ),
        !rnn_noop(in_size, hidden_size, batch_count) ==> rows_fit(
            old(h).len() as int,
            clamp_size(batch_count),
            clamp_size(hidden_size),
            clamp_size(hidden_size),
        ),
        !rnn_noop(in_size, hidden_size, batch_count) ==> rows_fit(
            old(z).len() as int,
            clamp_size(batch_count),
            clamp_size(hidden_size),
            clamp_size(hidden_size),
        ),
        !rnn_noop(in_size, hidden_size, batch_count) ==> rows_fit(
            old(r).len() as int,
            clamp_size(batch_count),
            clamp_size(hidden_size),
            clamp_size(hidden_size),
        ),
        !rnn_noop(in_size, hidden_size, batch_count) ==> rows_fit(
            old(h_prev).len() as int,
            clamp_size(batch_count),
            clamp_size(hidden_size),
            clamp_size(hidden_size),
        ),
        !rnn_noop(in_size, hidden_size, batch_count) ==> weights.len() >= gru_weights_len(
            in_size,
            hidden_size,
        ),
    ensures
        final(h).len() == old(h).len(),
        final(z).len() == old(z).len(),
        final(r).len() == old(r).len(),
        final(h_prev).len() == old(h_prev).len(),
        rnn_noop(in_size, hidden_size, batch_count) ==> final(h)@ == old(h)@ && final(z)@ == old(
            z,
        )@ && final(r)@ == old(r)@ && final(h_prev)@ == old(h_prev)@,
        forall|i: int|
            clamp_size(batch_count) * clamp_size(hidden_size) <= i < old(h).len()
                ==> #[trigger] final(h)@[i] == old(h)@[i],
        forall|i: int|
            clamp_size(batch_count) * clamp_size(hidden_size) <= i < old(z).len()
                ==> #[trigger] final(z)@[i] == old(z)@[i],
        forall|i: int|
            clamp_size(batch_count) * clamp_size(hidden_size) <= i < old(r).len()
                ==> #[trigger] final(r)@[i] == old(r)@[i],
        forall|i: int|
            clamp_size(batch_count) * clamp_size(hidden_size) <= i < old(h_prev).len()
                ==> #[trigger] final(h_prev)@[i] == old(h_prev)@[i],
        !rnn_noop(in_size, hidden_size, batch_count) ==> forall|b: int, j: int|
            0 <= b < clamp_size(batch_count) && 0 <= j < clamp_size(hidden_size)
                ==> #[trigger] row_at(final(h_prev)@, clamp_size(hidden_size), b, j) == row_at(
                old(h)@,
                clamp_size(hidden_size),
                b,
                j,
            ),
        !rnn_noop(in_size, hidden_size, batch_count) ==> forall|b: int, j: int|
            0 <= b < clamp_size(batch_count) && 0 <= j < clamp_size(hidden_size)
                ==> #[trigger] row_at(final(z)@, clamp_size(hidden_size), b, j) == gru_z_value(
                ops,
                weights@,
                input@,
                old(h)@,
                in_size,
                hidden_size,
                input_stride,
                b,
                j,
            ),
        !rnn_noop(in_size, hidden_size, batch_count) ==> forall|b: int, j: int|
            0 <= b < clamp_size(batch_count) && 0 <= j < clamp_size(hidden_size)
                ==> #[trigger] row_at(final(r)@, clamp_size(hidden_size), b, j) == gru_r_value(
                ops,
                weights@,
                input@,
                old(h)@,
                in_size,
                hidden_size,
                input_stride,
                b,
                j,
            ),
        !rnn_noop(in_size, hidden_size, batch_count) ==> forall|b: int, j: int|
            0 <= b < clamp_size(batch_count) && 0 <= j < clamp_size(hidden_size)
                ==> #[trigger] row_at(final(h)@, clamp_size(hidden_size), b, j) == gru_h_value(
                ops,
                weights@,
                input@,
                old(h)@,
                in_size,
                hidden_size,
                input_stride,
                b,
                j,
            ),
{
    let isz = to_usize(in_size);
    let hs = to_usize(hidden_size);
    let bc = to_usize(batch_count);
    let istr = to_usize(input_stride);
    if isz == 0 || hs == 0 || bc == 0 {
        return ;
    }
    proof {
        lemma_scale_le(0, hs as int, isz as int);
        lemma_scale_le(0, hs as int, hs as int);
    }
    let wsz = hs * isz;
    let usz = hs * hs;
    let wz: usize = 0;
    let wr = wz + wsz;
    let wh = wr + wsz;
    let uz = wh + wsz;
    let ur = uz + usz;
    let uh = ur + usz;
    let bz = uh + usz;
    let br = bz + hs;
    let bh = br + hs;
    let mut b: usize = 0;
    while b < bc
        invariant
            b <= bc,
            isz == clamp_size(in_size),
            hs == clamp_size(hidden_size),
            bc == clamp_size(batch_count),
            istr == clamp_size(input_stride),
            isz > 0 && hs > 0 && bc > 0,
            !rnn_noop(in_size, hidden_size, batch_count),
            wsz == hs * isz,
            usz == hs * hs,
            wz == 0 && wr == wsz && wh == 2 * wsz && uz == 3 * wsz,
            ur == uz + usz && uh == ur + usz && bz == uh + usz,
            br == bz + hs && bh == br + hs,
            bh + hs <= weights.len(),
            rows_fit(input.len() as int, bc as nat, istr as nat, isz as nat),
            rows_fit(old(h).len() as int, bc as nat, hs as nat, hs as nat),
            rows_fit(old(z).len() as int, bc as nat, hs as nat, hs as nat),
            rows_fit(old(r).len() as int, bc as nat, hs as nat, hs as nat),
            rows_fit(old(h_prev).len() as int, bc as nat, hs as nat, hs as nat),
            h.len() == old(h).len(),
            z.len() == old(z).len(),
            r.len() == old(r).len(),
            h_prev.len() == old(h_prev).len(),
            forall|i: int|
                row_base(hs as nat, b as int) <= i < h.len() ==> #[trigger] h@[i] == old(h)@[i],
            forall|i: int|
                row_base(hs as nat, b as int) <= i < z.len() ==> #[trigger] z@[i] == old(z)@[i],
            forall|i: int|
                row_base(hs as nat, b as int) <= i < r.len() ==> #[trigger] r@[i] == old(r)@[i],
            forall|i: int|
                row_base(hs as nat, b as int) <= i < h_prev.len() ==> #[trigger] h_prev@[i] == old(
                    h_prev,
                )@[i],
            forall|b2: int, j: int|
                0 <= b2 < b && 0 <= j < hs ==> #[trigger] row_at(h_prev@, hs as nat, b2, j)
                    == row_at(old(h)@, hs as nat, b2, j),
            forall|b2: int, j: int|
                0 <= b2 < b && 0 <= j < hs ==> #[trigger] row_at(z@, hs as nat, b2, j)
                    == gru_z_value(
                    ops,
                    weights@,
                    input@,
                    old(h)@,
                    in_size,
                    hidden_size,
                    input_stride,
                    b2,
                    j,
                ),
            forall|b2: int, j: int|
                0 <= b2 < b && 0 <= j < hs ==> #[trigger] row_at(r@, hs as nat, b2, j)
                    == gru_r_value(
                    ops,
                    weights@,
                    input@,
                    old(h)@,
                    in_size,
                    hidden_size,
                    input_stride,
                    b2,
                    j,
                ),
            forall|b2: int, j: int|
                0 <= b2 < b && 0 <= j < hs ==> #[trigger] row_at(h@, hs as nat, b2, j)
                    == gru_h_value(
                    ops,
                    weights@,
                    input@,
                    old(h)@,
                    in_size,
                    hidden_size,
                    input_stride,
                    b2,
                    j,
                ),
        decreases bc - b,
    {
        proof {
            assert(row_base(istr as nat, b as int) + isz <= input.len());
            assert(row_base(hs as nat, b as int) + hs <= h.len());
            assert(row_base(hs as nat, b as int) + hs <= z.len());
            assert(row_base(hs as nat, b as int) + hs <= r.len());
            assert(row_base(hs as nat, b as int) + hs <= h_prev.len());
            lemma_row_step(hs as nat, b as int);
        }
        let input_base = b * istr;
        let state_base = b * hs;
        let ghost pre_snap = h_prev@;
        copy_range(h_prev, state_base, h, state_base, hs);
        proof {
            assert forall|b2: int, j: int|
                0 <= b2 < b && 0 <= j < hs implies #[trigger] row_at(h_prev@, hs as nat, b2, j)
                == row_at(old(h)@, hs as nat, b2, j) by {
                lemma_row_lt(hs as nat, b2, j, b as int);
                assert(row_at(pre_snap, hs as nat, b2, j) == row_at(old(h)@, hs as nat, b2, j));
                assert(h_prev@[b2 * (hs as nat) + j] == pre_snap[b2 * (hs as nat) + j]);
            }
        }
        let mut j: usize = 0;
        while j < hs
            invariant
                j <= hs,
                b < bc,
                isz == clamp_size(in_size),
                hs == clamp_size(hidden_size),
                bc == clamp_size(batch_count),
                istr == clamp_size(input_stride),
                isz > 0 && hs > 0,
                wsz == hs * isz,
                usz == hs * hs,
                wz == 0 && wr == wsz && wh == 2 * wsz && uz == 3 * wsz,
                ur == uz + usz && uh == ur + usz && bz == uh + usz,
                br == bz + hs && bh == br + hs,
                bh + hs <= weights.len(),
                input_base == row_base(istr as nat, b as int),
                state_base == row_base(hs as nat, b as int),
                input_base + isz <= input.len(),
                state_base + hs <= h.len(),
                state_base + hs <= z.len(),
                state_base + hs <= r.len(),
                state_base + hs <= h_prev.len(),
                h.len() == old(h).len(),
                z.len() == old(z).len(),
                r.len() == old(r).len(),
                h_prev.len() == old(h_prev).len(),
                forall|i: int|
                    state_base <= i < h.len() ==> #[trigger] h@[i] == old(h)@[i],
                forall|i: int|
                    state_base + hs <= i < z.len() ==> #[trigger] z@[i] == old(z)@[i],
                forall|i: int|
                    state_base + hs <= i < r.len() ==> #[trigger] r@[i] == old(r)@[i],
                forall|i: int|
                    state_base + hs <= i < h_prev.len() ==> #[trigger] h_prev@[i] == old(
                        h_prev,
                    )@[i],
                forall|i: int|
                    state_base <= i < state_base + hs ==> #[trigger] h_prev@[i] == old(h)@[i],
                forall|i: int|
                    state_base <= i < state_base + j ==> #[trigger] z@[i] == gru_z_value(
                        ops,
                        weights@,
                        input@,
                        old(h)@,
                        in_size,
                        hidden_size,
                        input_stride,
                        b as int,
                        i - state_base,
                    ),
                forall|i: int|
                    state_base <= i < state_base + j ==> #[trigger] r@[i] == gru_r_value(
                        ops,
                        weights@,
                        input@,
                        old(h)@,
                        in_size,
                        hidden_size,
                        input_stride,
                        b as int,
                        i - state_base,
                    ),
                forall|b2: int, j2: int|
                    0 <= b2 < b && 0 <= j2 < hs ==> #[trigger] row_at(h_prev@, hs as nat, b2, j2)
                        == row_at(old(h)@, hs as nat, b2, j2),
                forall|b2: int, j2: int|
                    0 <= b2 < b && 0 <= j2 < hs ==> #[trigger] row_at(z@, hs as nat, b2, j2)
                        == gru_z_value(
                        ops,
                        weights@,
                        input@,
                        old(h)@,
                        in_size,
                        hidden_size,
                        input_stride,
                        b2,
                        j2,
                    ),
                forall|b2: int, j2: int|
                    0 <= b2 < b && 0 <= j2 < hs ==> #[trigger] row_at(r@, hs as nat, b2, j2)
                        == gru_r_value(
                        ops,
                        weights@,
                        input@,
                        old(h)@,
                        in_size,
                        hidden_size,
                        input_stride,
                        b2,
                        j2,
                    ),
                forall|b2: int, j2: int|
                    0 <= b2 < b && 0 <= j2 < hs ==> #[trigger] row_at(h@, hs as nat, b2, j2)
                        == gru_h_value(
                        ops,
                        weights@,
                        input@,
                        old(h)@,
                        in_size,
                        hidden_size,
                        input_stride,
                        b2,
                        j2,
                    ),
            decreases hs - j,
        {
            proof {
                lemma_scale_le(j as int + 1, hs as int, isz as int);
                lemma_scale_le(j as int + 1, hs as int, hs as int);
                lemma_row_step(isz as nat, j as int);
                lemma_row_step(hs as nat, j as int);
            }
            let wz_row = wz + j * isz;
            let wr_row = wr + j * isz;
            let uz_row = uz + j * hs;
            let ur_row = ur + j * hs;
            let mut sum_z = dot(ops, weights, wz_row, input, input_base, isz);
            let mut sum_r = dot(ops, weights, wr_row, input, input_base, isz);
            proof {
                lemma_dot_spec_same_range(
                    ops,
                    weights@,
                    uz_row as int,
                    h_prev@,
                    state_base as int,
                    old(h)@,
                    state_base as int,
                    hs as int,
                );
                lemma_dot_spec_same_range(
                    ops,
                    weights@,
                    ur_row as int,
                    h_prev@,
                    state_base as int,
                    old(h)@,
                    state_base as int,
                    hs as int,
                );
            }
            sum_z = ops.fadd(sum_z, dot(ops, weights, uz_row, h_prev, state_base, hs));
            sum_r = ops.fadd(sum_r, dot(ops, weights, ur_row, h_prev, state_base, hs));
            sum_z = ops.fadd(sum_z, weights[bz + j]);
            sum_r = ops.fadd(sum_r, weights[br + j]);
            let z_val = sigmoid(ops, sum_z);
            let r_val = sigmoid(ops, sum_r);
            proof {
                assert(z_val == gru_z_value(
                    ops,
                    weights@,
                    input@,
                    old(h)@,
                    in_size,
                    hidden_size,
                    input_stride,
                    b as int,
                    j as int,
                ));
                assert(r_val == gru_r_value(
                    ops,
                    weights@,
                    input@,
                    old(h)@,
                    in_size,
                    hidden_size,
                    input_stride,
                    b as int,
                    j as int,
                ));
            }
            let ghost pre_z = z@;
            z[state_base + j] = z_val;
            let ghost pre_r = r@;
            r[state_base + j] = r_val;
            proof {
                assert forall|b2: int, j2: int|
                    0 <= b2 < b && 0 <= j2 < hs implies #[trigger] row_at(z@, hs as nat, b2, j2)
                    == row_at(pre_z, hs as nat, b2, j2) by {
                    lemma_row_lt(hs as nat, b2, j2, b as int);
                }
                assert forall|b2: int, j2: int|
                    0 <= b2 < b && 0 <= j2 < hs implies #[trigger] row_at(r@, hs as nat, b2, j2)
                    == row_at(pre_r, hs as nat, b2, j2) by {
                    lemma_row_lt(hs as nat, b2, j2, b as int);
                }
            }
            j = j + 1;
        }
        let mut j: usize = 0;
        while j < hs
            invariant
                j <= hs,
                b < bc,
                isz == clamp_size(in_size),
                hs == clamp_size(hidden_size),
                bc == clamp_size(batch_count),
                istr == clamp_size(input_stride),
                isz > 0 && hs > 0,
                wsz == hs * isz,
                usz == hs * hs,
                wz == 0 && wr == wsz && wh == 2 * wsz && uz == 3 * wsz,
                ur == uz + usz && uh == ur + usz && bz == uh + usz,
                br == bz + hs && bh == br + hs,
                bh + hs <= weights.len(),
                input_base == row_base(istr as nat, b as int),
                state_base == row_base(hs as nat, b as int),
                input_base + isz <= input.len(),
                state_base + hs <= h.len(),
                state_base + hs <= z.len(),
                state_base + hs <= r.len(),
                state_base + hs <= h_prev.len(),
                h.len() == old(h).len(),
                z.len() == old(z).len(),
                r.len() == old(r).len(),
                h_prev.len() == old(h_prev).len(),
                forall|i: int|
                    state_base + hs <= i < h.len() ==> #[trigger] h@[i] == old(h)@[i],
                forall|i: int|
                    state_base + hs <= i < z.len() ==> #[trigger] z@[i] == old(z)@[i],
                forall|i: int|
                    state_base + hs <= i < r.len() ==> #[trigger] r@[i] == old(r)@[i],
                forall|i: int|
                    state_base + hs <= i < h_prev.len() ==> #[trigger] h_prev@[i] == old(
                        h_prev,
                    )@[i],
                forall|i: int|
                    state_base <= i < state_base + hs ==> #[trigger] h_prev@[i] == old(h)@[i],
                forall|i: int|
                    state_base <= i < state_base + hs ==> #[trigger] z@[i] == gru_z_value(
                        ops,
                        weights@,
                        input@,
                        old(h)@,
                        in_size,
                        hidden_size,
                        input_stride,
                        b as int,
                        i - state_base,
                    ),
                forall|i: int|
                    state_base <= i < state_base + hs ==> #[trigger] r@[i] == gru_r_value(
                        ops,
                        weights@,
                        input@,
                        old(h)@,
                        in_size,
                        hidden_size,
                        input_stride,
                        b as int,
                        i - state_base,
                    ),
                forall|i: int|
                    state_base <= i < state_base + j ==> #[trigger] h@[i] == gru_h_value(
                        ops,
                        weights@,
                        input@,
                        old(h)@,
                        in_size,
                        hidden_size,
                        input_stride,
                        b as int,
                        i - state_base,
                    ),
                forall|b2: int, j2: int|
                    0 <= b2 < b && 0 <= j2 < hs ==> #[trigger] row_at(h_prev@, hs as nat, b2, j2)
                        == row_at(old(h)@, hs as nat, b2, j2),
                forall|b2: int, j2: int|
                    0 <= b2 < b && 0 <= j2 < hs ==> #[trigger] row_at(z@, hs as nat, b2, j2)
                        == gru_z_value(
                        ops,
                        weights@,
                        input@,
                        old(h)@,
                        in_size,
                        hidden_size,
                        input_stride,
                        b2,
                        j2,
                    ),
                forall|b2: int, j2: int|
                    0 <= b2 < b && 0 <= j2 < hs ==> #[trigger] row_at(r@, hs as nat, b2, j2)
                        == gru_r_value(
                        ops,
                        weights@,
                        input@,
                        old(h)@,
                        in_size,
                        hidden_size,
                        input_stride,
                        b2,
                        j2,
                    ),
                forall|b2: int, j2: int|
                    0 <= b2 < b && 0 <= j2 < hs ==> #[trigger] row_at(h@, hs as nat, b2, j2)
                        == gru_h_value(
                        ops,
                        weights@,
                        input@,
                        old(h)@,
                        in_size,
                        hidden_size,
                        input_stride,
                        b2,
                        j2,
                    ),
            decreases hs - j,
        {
            proof {
                lemma_scale_le(j as int + 1, hs as int, isz as int);
                lemma_scale_le(j as int + 1, hs as int, hs as int);
                lemma_row_step(isz as nat, j as int);
                lemma_row_step(hs as nat, j as int);
            }
            let wh_row = wh + j * isz;
            let uh_row = uh + j * hs;
            let mut sum_h = dot(ops, weights, wh_row, input, input_base, isz);
            let ghost r_row = Seq::new(
                hs as nat,
                |k: int| gru_r_value(
                    ops,
                    weights@,
                    input@,
                    old(h)@,
                    in_size,
                    hidden_size,
                    input_stride,
                    b as int,
                    k,
                ),
            );
            proof {
                assert forall|i: int|
                    state_base <= i < state_base + hs implies r@[i] == r_row[i - (
                state_base as int) + 0] by {
                    assert(r@[i] == gru_r_value(
                        ops,
                        weights@,
                        input@,
                        old(h)@,
                        in_size,
                        hidden_size,
                        input_stride,
                        b as int,
                        i - state_base,
                    ));
                }
                lemma_dot_mul_spec_same_range(
                    ops,
                    weights@,
                    uh_row as int,
                    r@,
                    state_base as int,
                    r_row,
                    0,
                    h_prev@,
                    state_base as int,
                    old(h)@,
                    state_base as int,
                    hs as int,
                );
            }
            sum_h = ops.fadd(
                sum_h,
                dot_mul(ops, weights, uh_row, r, state_base, h_prev, state_base, hs),
            );
            sum_h = ops.fadd(sum_h, weights[bh + j]);
            let h_tilde = ops.ftanh(sum_h);
            let z_val = z[state_base + j];
            let prev_h = h_prev[state_base + j];
            let ghost pre_write = h@;
            h[state_base + j] = ops.fadd(
                ops.fmul(ops.fsub(ONE_BITS, z_val), prev_h),
                ops.fmul(z_val, h_tilde),
            );
            proof {
                assert(h@[state_base + j] == gru_h_value(
                    ops,
                    weights@,
                    input@,
                    old(h)@,
                    in_size,
                    hidden_size,
                    input_stride,
                    b as int,
                    j as int,
                ));
                assert forall|b2: int, j2: int|
                    0 <= b2 < b && 0 <= j2 < hs implies #[trigger] row_at(h@, hs as nat, b2, j2)
                    == row_at(pre_write, hs as nat, b2, j2) by {
                    lemma_row_lt(hs as nat, b2, j2, b as int);
                }
            }
            j = j + 1;
        }
        proof {
            lemma_row_step(hs as nat, b as int);
            assert forall|b2: int, j2: int|
                0 <= b2 < b + 1 && 0 <= j2 < hs implies #[trigger] row_at(
                h_prev@,
                hs as nat,
                b2,
                j2,
            ) == row_at(old(h)@, hs as nat, b2, j2) by {
                if b2 == b as int {
                    assert(h_prev@[b2 * (hs as nat) + j2] == old(h)@[b2 * (hs as nat) + j2]);
                }
            }
            assert forall|b2: int, j2: int|
                0 <= b2 < b + 1 && 0 <= j2 < hs implies #[trigger] row_at(z@, hs as nat, b2, j2)
                == gru_z_value(
                ops,
                weights@,
                input@,
                old(h)@,
                in_size,
                hidden_size,
                input_stride,
                b2,
                j2,
            ) by {
                if b2 == b as int {
                    assert(z@[b2 * (hs as nat) + j2] == gru_z_value(
                        ops,
                        weights@,
                        input@,
                        old(h)@,
                        in_size,
                        hidden_size,
                        input_stride,
                        b2,
                        j2,
                    ));
                }
            }
            assert forall|b2: int, j2: int|
                0 <= b2 < b + 1 && 0 <= j2 < hs implies #[trigger] row_at(r@, hs as nat, b2, j2)
                == gru_r_value(
                ops,
                weights@,
                input@,
                old(h)@,
                in_size,
                hidden_size,
                input_stride,
                b2,
                j2,
            ) by {
                if b2 == b as int {
                    assert(r@[b2 * (hs as nat) + j2] == gru_r_value(
                        ops,
                        weights@,
                        input@,
                        old(h)@,
                        in_size,
                        hidden_size,
                        input_stride,
                        b2,
                        j2,
                    ));
                }
            }
            assert forall|b2: int, j2: int|
                0 <= b2 < b + 1 && 0 <= j2 < hs implies #[trigger] row_at(h@, hs as nat, b2, j2)
                == gru_h_value(
                ops,
                weights@,
                input@,
                old(h)@,
                in_size,
                hidden_size,
                input_stride,
                b2,
                j2,
            ) by {
                if b2 == b as int {
                    assert(h@[b2 * (hs as nat) + j2] == gru_h_value(
                        ops,
                        weights@,
                        input@,
                        old(h)@,
                        in_size,
                        hidden_size,
                        input_stride,
                        b2,
                        j2,
                    ));
                }
            }
        }
        b = b + 1;
    }
    proof {
        assert(row_base(hs as nat, bc as int) == clamp_size(batch_count) * clamp_size(
            hidden_size,
        ));
    }
}

} // verus!
