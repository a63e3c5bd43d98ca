//! The RRU single-step kernel: a simplified two-gate recurrent cell whose
//! state is the hidden vector alone.
//!
//! Weight blob layout, in this exact order: `W_c, W_r` (input-to-candidate
//! and input-to-gate, each `hidden_size x in_size`), then `U_c, U_r` (each
//! `hidden_size x hidden_size`), then `b_c, b_r` (each `hidden_size`).

use vstd::prelude::*;

use crate::buffer::lemma_row_lt;
use crate::buffer::lemma_row_step;
use crate::buffer::lemma_scale_le;
use crate::buffer::copy_range;
use crate::buffer::row_at;
use crate::buffer::row_base;
use crate::buffer::rows_fit;
use crate::reduce::dot;
use crate::reduce::gate_pre_spec;
use crate::reduce::lemma_dot_spec_same_range;
use crate::scalar::sigmoid;
use crate::scalar::sigmoid_spec;
use crate::scalar::ScalarOps;
use crate::scalar::ONE_BITS;
use crate::sizes::clamp_size;
use crate::sizes::rnn_noop;
use crate::sizes::to_usize;

verus! {

/// Number of weight-blob elements one RRU step reads: two input blocks, two
/// hidden blocks, two bias rows.
pub open spec fn rru_weights_len(in_size: i32, hidden_size: i32) -> int {
    let is = clamp_size(in_size) as int;
    let hs = clamp_size(hidden_size) as int;
    2 * (hs * is) + 2 * (hs * hs) + 2 * hs
}

/// Candidate of hidden unit `j` of batch row `b`: the host tanh of the
/// `W_c`/`U_c` gate pre-activation against the input row and the previous
/// hidden row.
pub open spec fn rru_candidate_value<S: ScalarOps>(
    ops: &S,
    w: Seq<u32>,
    x: Seq<u32>,
    h0: Seq<u32>,
    in_size: i32,
    hidden_size: i32,
    input_stride: i32,
    b: int,
    j: int,
) -> u32 {
    let is = clamp_size(in_size) as int;
    let hs = clamp_size(hidden_size) as int;
    ops.ftanh_spec(
        gate_pre_spec(
            ops,
            w,
            j * is,
            2 * (hs * is) + j * hs,
            2 * (hs * is) + 2 * (hs * hs) + j,
            x,
            b * clamp_size(input_stride),
            is,
            h0,
            b * hs,
            hs,
        ),
    )
}

/// Gate of hidden unit `j` of batch row `b`: the host sigmoid of the
/// `W_r`/`U_r` gate pre-activation.
pub open spec fn rru_gate_value<S: ScalarOps>(
    ops: &S,
    w: Seq<u32>,
    x: Seq<u32>,
    h0: Seq<u32>,
    in_size: i32,
    hidden_size: i32,
    input_stride: i32,
    b: int,
    j: int,
) -> u32 {
    let is = clamp_size(in_size) as int;
    let hs = clamp_size(hidden_size) as int;
    sigmoid_spec(
        ops,
        gate_pre_spec(
            ops,
            w,
            (hs * is) + j * is,
            2 * (hs * is) + (hs * hs) + j * hs,
            2 * (hs * is) + 2 * (hs * hs) + hs + j,
            x,
            b * clamp_size(input_stride),
            is,
            h0,
            b * hs,
            hs,
        ),
    )
}

/// New hidden value of unit `j` of batch row `b`: the convex blend
/// `(1 - gate) * previous + gate * candidate`, in the host's arithmetic.
pub open spec fn rru_h_value<S: ScalarOps>(
    ops: &S,
    w: Seq<u32>,
    x: Seq<u32>,
    h0: Seq<u32>,
    in_size: i32,
    hidden_size: i32,
    input_stride: i32,
    b: int,
    j: int,
) -> u32 {
    let hs = clamp_size(hidden_size) as int;
    let gate = rru_gate_value(ops, w, x, h0, in_size, hidden_size, input_stride, b, j);
    let cand = rru_candidate_value(ops, w, x, h0, in_size, hidden_size, input_stride, b, j);
    ops.fadd_spec(
        ops.fmul_spec(ops.fsub_spec(ONE_BITS, gate), h0[b * hs + j]),
        ops.fmul_spec(gate, cand),
    )
}

/// One RRU recurrence update per batch row.
///
/// Per batch row the hidden state is first snapshotted into `h_prev`; each
/// hidden unit `j` then receives exactly [`rru_h_value`] — the blend of its
/// previous value and the candidate under the sigmoid gate, all units
/// reading the same pre-update hidden vector. A zero (or negative)
/// `in_size`, `hidden_size` or `batch_count` makes the whole call a silent
/// no-op. Nothing at or beyond `batch_count * hidden_size` is touched in
/// either state buffer.
pub fn rru_step<S: ScalarOps>(
    ops: &S,
    weights: &Vec<u32>,
    input: &Vec<u32>,
    h: &mut Vec<u32>,
    h_prev: &mut Vec<u32>,
    in_size: i32,
    hidden_size: i32,
    batch_count: i32,
    input_stride: i32,
)
    requires
        !rnn_noop(in_size, hidden_size, batch_count) ==> rows_fit(
            input.len() as int,
            clamp_size(batch_count),
            clamp_size(input_stride),
            clamp_size(in_size),
        ),
        !rnn_noop(in_size, hidden_size, batch_count) ==> rows_fit(
            old(h).len() as int,
            clamp_size(batch_count),
            clamp_size(hidden_size),
            clamp_size(hidden_size),
        ),
        !rnn_noop(in_size, hidden_size, batch_count) ==> rows_fit(
            old(h_prev).len() as int,
            clamp_size(batch_count),
            clamp_size(hidden_size),
            clamp_size(hidden_size),
        ),
        !rnn_noop(in_size, hidden_size, batch_count) ==> weights.len() >= rru_weights_len(
            in_size,
            hidden_size,
        ),
    ensures
        final(h).len() == old(h).len(),
        final(h_prev).len() == old(h_prev).len(),
        rnn_noop(in_size, hidden_size, batch_count) ==> final(h)@ == old(h)@ && final(h_prev)@
            == old(h_prev)@,
        forall|i: int|
            clamp_size(batch_count) * clamp_size(hidden_size) <= i < old(h).len()
                ==> #[trigger] final(h)@[i] == old(h)@[i],
        forall|i: int|
            clamp_size(batch_count) * clamp_size(hidden_size) <= i < old(h_prev).len()
                ==> #[trigger] final(h_prev)@[i] == old(h_prev)@[i],
        !rnn_noop(in_size, hidden_size, batch_count) ==> forall|b: int, j: int|
            0 <= b < clamp_size(batch_count) && 0 <= j < clamp_size(hidden_size)
                ==> #[trigger] row_at(final(h_prev)@, clamp_size(hidden_size), b, j) == row_at(
                old(h)@,
                clamp_size(hidden_size),
                b,
                j,
            ),
        !rnn_noop(in_size, hidden_size, batch_count) ==> forall|b: int, j: int|
            0 <= b < clamp_size(batch_count) && 0 <= j < clamp_size(hidden_size)
                ==> #[trigger] row_at(final(h)@, clamp_size(hidden_size), b, j) == rru_h_value(
                ops,
                weights@,
                input@,
                old(h)@,
                in_size,
                hidden_size,
                input_stride,
                b,
                j,
            ),
{
    let isz = to_usize(in_size);
    let hs = to_usize(hidden_size);
    let bc = to_usize(batch_count);
    let istr = to_usize(input_stride);
    if isz == 0 || hs == 0 || bc == 0 {
        return ;
    }
    proof {
        lemma_scale_le(0, hs as int, isz as int);
        lemma_scale_le(0, hs as int, hs as int);
    }
    let wsz = hs * isz;
    let usz = hs * hs;
    let wc: usize = 0;
    let wr = wc + wsz;
    let uc = wr + wsz;
    let ur = uc + usz;
    let bcs = ur + usz;
    let brs = bcs + hs;
    let mut b: usize = 0;
    while b < bc
        invariant
            b <= bc,
            isz == clamp_size(in_size),
            hs == clamp_size(hidden_size),
            bc == clamp_size(batch_count),
            istr == clamp_size(input_stride),
            isz > 0 && hs > 0 && bc > 0,
            !rnn_noop(in_size, hidden_size, batch_count),
            wsz == hs * isz,
            usz == hs * hs,
            wc == 0 && wr == wsz && uc == 2 * wsz,
            ur == uc + usz && bcs == ur + usz && brs == bcs + hs,
            brs + hs <= weights.len(),
            rows_fit(input.len() as int, bc as nat, istr as nat, isz as nat),
            rows_fit(old(h).len() as int, bc as nat, hs as nat, hs as nat),
            rows_fit(old(h_prev).len() as int, bc as nat, hs as nat, hs as nat),
            h.len() == old(h).len(),
            h_prev.len() == old(h_prev).len(),
            forall|i: int|
                row_base(hs as nat, b as int) <= i < h.len() ==> #[trigger] h@[i] == old(h)@[i],
            forall|i: int|
                row_base(hs as nat, b as int) <= i < h_prev.len() ==> #[trigger] h_prev@[i] == old(
                    h_prev,
                )@[i],
            forall|b2: int, j: int|
                0 <= b2 < b && 0 <= j < hs ==> #[trigger] row_at(h_prev@, hs as nat, b2, j)
                    == row_at(old(h)@, hs as nat, b2, j),
            forall|b2: int, j: int|
                0 <= b2 < b && 0 <= j < hs ==> #[trigger] row_at(h@, hs as nat, b2, j)
                    == rru_h_value(
                    ops,
                    weights@,
                    input@,
                    old(h)@,
                    in_size,
                    hidden_size,
                    input_stride,
                    b2,
                    j,
                ),
        decreases bc - b,
    {
        proof {
            assert(row_base(istr as nat, b as int) + isz <= input.len());
            assert(row_base(hs as nat, b as int) + hs <= h.len());
            assert(row_base(hs as nat, b as int) + hs <= h_prev.len());
            lemma_row_step(hs as nat, b as int);
        }
        let input_base = b * istr;
        let state_base = b * hs;
        let ghost pre_snap = h_prev@;
        copy_range(h_prev, state_base, h, state_base, hs);
        proof {
            assert forall|b2: int, j: int|
                0 <= b2 < b && 0 <= j < hs implies #[trigger] row_at(h_prev@, hs as nat, b2, j)
                == row_at(old(h)@, hs as nat, b2, j) by {
                lemma_row_lt(hs as nat, b2, j, b as int);
                assert(row_at(pre_snap, hs as nat, b2, j) == row_at(old(h)@, hs as nat, b2, j));
                assert(h_prev@[b2 * (hs as nat) + j] == pre_snap[b2 * (hs as nat) + j]);
            }
        }
        let mut j: usize = 0;
        while j < hs
            invariant
                j <= hs,
                b < bc,
                isz == clamp_size(in_size),
                hs == clamp_size(hidden_size),
                bc == clamp_size(batch_count),
                istr == clamp_size(input_stride),
                isz > 0 && hs > 0,
                wsz == hs * isz,
                usz == hs * hs,
                wc == 0 && wr == wsz && uc == 2 * wsz,
                ur == uc + usz && bcs == ur + usz && brs == bcs + hs,
                brs + hs <= weights.len(),
                input_base == row_base(istr as nat, b as int),
                state_base == row_base(hs as nat, b as int),
                input_base + isz <= input.len(),
                state_base + hs <= h.len(),
                state_base + hs <= h_prev.len(),
                h.len() == old(h).len(),
                h_prev.len() == old(h_prev).len(),
                forall|i: int|
                    state_base + hs <= i < h.len() ==> #[trigger] h@[i] == old(h)@[i],
                forall|i: int|
                    state_base + hs <= i < h_prev.len() ==> #[trigger] h_prev@[i] == old(
                        h_prev,
                    )@[i],
                forall|i: int|
                    state_base <= i < state_base + hs ==> #[trigger] h_prev@[i] == old(h)@[i],
                forall|i: int|
                    state_base <= i < state_base + j ==> #[trigger] h@[i] == rru_h_value(
                        ops,
                        weights@,
                        input@,
                        old(h)@,
                        in_size,
                        hidden_size,
                        input_stride,
                        b as int,
                        i - state_base,
                    ),
                forall|b2: int, j2: int|
                    0 <= b2 < b && 0 <= j2 < hs ==> #[trigger] row_at(h_prev@, hs as nat, b2, j2)
                        == row_at(old(h)@, hs as nat, b2, j2),
                forall|b2: int, j2: int|
                    0 <= b2 < b && 0 <= j2 < hs ==> #[trigger] row_at(h@, hs as nat, b2, j2)
                        == rru_h_value(
                        ops,
                        weights@,
                        input@,
                        old(h)@,
                        in_size,
                        hidden_size,
                        input_stride,
                        b2,
                        j2,
                    ),
            decreases hs - j,
        {
            proof {
                lemma_scale_le(j as int + 1, hs as int, isz as int);
                lemma_scale_le(j as int + 1, hs as int, hs as int);
                lemma_row_step(isz as nat, j as int);
                lemma_row_step(hs as nat, j as int);
            }
            let wc_row = wc + j * isz;
            let wr_row = wr + j * isz;
            let uc_row = uc + j * hs;
            let ur_row = ur + j * hs;
            let mut sum_c = dot(ops, weights, wc_row, input, input_base, isz);
            let mut sum_r = dot(ops, weights, wr_row, input, input_base, isz);
            proof {
                lemma_dot_spec_same_range(
                    ops,
                    weights@,
                    uc_row as int,
                    h_prev@,
                    state_base as int,
                    old(h)@,
                    state_base as int,
                    hs as int,
                );
                lemma_dot_spec_same_range(
                    ops,
                    weights@,
                    ur_row as int,
                    h_prev@,
                    state_base as int,
                    old(h)@,
                    state_base as int,
                    hs as int,
                );
            }
            sum_c = ops.fadd(sum_c, dot(ops, weights, uc_row, h_prev, state_base, hs));
            sum_r = ops.fadd(sum_r, dot(ops, weights, ur_row, h_prev, state_base, hs));
            sum_c = ops.fadd(sum_c, weights[bcs + j]);
            sum_r = ops.fadd(sum_r, weights[brs + j]);
            let cand = ops.ftanh(sum_c);
            let gate = sigmoid(ops, sum_r);
            proof {
                assert(cand == rru_candidate_value(
                    ops,
                    weights@,
                    input@,
                    old(h)@,
                    in_size,
                    hidden_size,
                    input_stride,
                    b as int,
                    j as int,
                ));
                assert(gate == rru_gate_value(
                    ops,
                    weights@,
                    input@,
                    old(h)@,
                    in_size,
                    hidden_size,
                    input_stride,
                    b as int,
                    j as int,
                ));
            }
            let prev = h_prev[state_base + j];
            let ghost pre_write = h@;
            h[state_base + j] = ops.fadd(
                ops.fmul(ops.fsub(ONE_BITS, gate), prev),
                ops.fmul(gate, cand),
            );
            proof {
                assert(h@[state_base + j] == rru_h_value(
                    ops,
                    weights@,
                    input@,
                    old(h)@,
                    in_size,
                    hidden_size,
                    input_stride,
                    b as int,
                    j as int,
                ));
                assert forall|b2: int, j2: int|
                    0 <= b2 < b && 0 <= j2 < hs implies #[trigger] row_at(h@, hs as nat, b2, j2)
                    == row_at(pre_write, hs as nat, b2, j2) by {
                    lemma_row_lt(hs as nat, b2, j2, b as int);
                }
            }
            j = j + 1;
        }
        proof {
            lemma_row_step(hs as nat, b as int);
            assert forall|b2: int, j2: int|
                0 <= b2 < b + 1 && 0 <= j2 < hs implies #[trigger] row_at(
                h_prev@,
                hs as nat,
                b2,
                j2,
            ) == row_at(old(h)@, hs as nat, b2, j2) by {
                if b2 == b as int {
                    assert(h_prev@[b2 * (hs as nat) + j2] == old(h)@[b2 * (hs as nat) + j2]);
                }
            }
            assert forall|b2: int, j2: int|
                0 <= b2 < b + 1 && 0 <= j2 < hs implies #[trigger] row_at(h@, hs as nat, b2, j2)
                == rru_h_value(
                ops,
                weights@,
                input@,
                old(h)@,
                in_size,
                hidden_size,
                input_stride,
                b2,
                j2,
            ) by {
                if b2 == b as int {
                    assert(h@[b2 * (hs as nat) + j2] == rru_h_value(
                        ops,
                        weights@,
                        input@,
                        old(h)@,
                        in_size,
                        hidden_size,
                        input_stride,
                        b2,
                        j2,
                    ));
                }
            }
        }
        b = b + 1;
    }
    proof {
        assert(row_base(hs as nat, bc as int) == clamp_size(batch_count) * clamp_size(
            hidden_size,
        ));
    }
}

} // verus!
