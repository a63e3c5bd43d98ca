//! The LSTM single-step kernel.
//!
//! Weight blob layout, in this exact order: `W_i, W_f, W_o, W_g`
//! (input-to-gate, each `hidden_size x in_size`), then `U_i, U_f, U_o, U_g`
//! (hidden-to-gate, each `hidden_size x hidden_size`), then
//! `b_i, b_f, b_o, b_g` (each `hidden_size`).

use vstd::prelude::*;

use crate::buffer::lemma_row_lt;
use crate::buffer::lemma_row_step;
use crate::buffer::lemma_scale_le;
use crate::buffer::copy_range;
use crate::buffer::row_at;
use crate::buffer::row_base;
use crate::buffer::rows_fit;
use crate::reduce::dot;
use crate::reduce::gate_pre_spec;
use crate::reduce::lemma_dot_spec_same_range;
use crate::scalar::sigmoid;
use crate::scalar::sigmoid_spec;
use crate::scalar::ScalarOps;
use crate::sizes::clamp_size;
use crate::sizes::rnn_noop;
use crate::sizes::to_usize;

verus! {

/// Number of weight-blob elements one LSTM step reads: four input-to-gate
/// blocks, four hidden-to-gate blocks, four bias rows.
pub open spec fn lstm_weights_len(in_size: i32, hidden_size: i32) -> int {
    let is = clamp_size(in_size) as int;
    let hs = clamp_size(hidden_size) as int;
    4 * (hs * is) + 4 * (hs * hs) + 4 * hs
}

/// Pre-activation of gate `k` (input 0, forget 1, output 2, candidate 3)
/// of hidden unit `j` of batch row `b`, against the input row and the
/// previous hidden row.
pub open spec fn lstm_gate_pre<S: ScalarOps>(
    ops: &S,
    w: Seq<u32>,
    x: Seq<u32>,
    h0: Seq<u32>,
    in_size: i32,
    hidden_size: i32,
    input_stride: i32,
    k: int,
    b: int,
    j: int,
) -> u32 {
    let is = clamp_size(in_size) as int;
    let hs = clamp_size(hidden_size) as int;
    gate_pre_spec(
        ops,
        w,
        k * (hs * is) + j * is,
        4 * (hs * is) + k * (hs * hs) + j * hs,
        4 * (hs * is) + 4 * (hs * hs) + k * hs + j,
        x,
        b * clamp_size(input_stride),
        is,
        h0,
        b * hs,
        hs,
    )
}

/// New cell value of unit `j` of batch row `b`:
/// `forget * previous_cell + input * candidate`, in the host's arithmetic.
pub open spec fn lstm_c_value<S: ScalarOps>(
    ops: &S,
    w: Seq<u32>,
    x: Seq<u32>,
    h0: Seq<u32>,
    c0: Seq<u32>,
    in_size: i32,
    hidden_size: i32,
    input_stride: i32,
    b: int,
    j: int,
) -> u32 {
    let hs = clamp_size(hidden_size) as int;
    let i_gate = sigmoid_spec(
        ops,
        lstm_gate_pre(ops, w, x, h0, in_size, hidden_size, input_stride, 0, b, j),
    );
    let f_gate = sigmoid_spec(
        ops,
        lstm_gate_pre(ops, w, x, h0, in_size, hidden_size, input_stride, 1, b, j),
    );
    let g_gate = ops.ftanh_spec(
        lstm_gate_pre(ops, w, x, h0, in_size, hidden_size, input_stride, 3, b, j),
    );
    ops.fadd_spec(ops.fmul_spec(f_gate, c0[b * hs + j]), ops.fmul_spec(i_gate, g_gate))
}

/// New hidden value of unit `j` of batch row `b`:
/// `output_gate * tanh(new_cell)`, in the host's arithmetic.
pub open spec fn lstm_h_value<S: ScalarOps>(
    ops: &S,
    w: Seq<u32>,
    x: Seq<u32>,
    h0: Seq<u32>,
    c0: Seq<u32>,
    in_size: i32,
    hidden_size: i32,
    input_stride: i32,
    b: int,
    j: int,
) -> u32 {
    let o_gate = sigmoid_spec(
        ops,
        lstm_gate_pre(ops, w, x, h0, in_size, hidden_size, input_stride, 2, b, j),
    );
    ops.fmul_spec(
        o_gate,
        ops.ftanh_spec(
            lstm_c_value(ops, w, x, h0, c0, in_size, hidden_size, input_stride, b, j),
        ),
    )
}

/// One LSTM recurrence update per batch row.
///
/// Per batch row, both the hidden and the cell state are snapshotted into
/// `h_prev` and `c_prev` before any unit updates, so that every hidden unit
/// of the row reads the same pre-update vectors; unit `j` of the cell state
/// `c` receives exactly [`lstm_c_value`] and of the hidden state `h`
/// exactly [`lstm_h_value`], both overwritten in place. The input, forget
/// and output gates are computed but not surfaced. A zero (or negative)
/// `in_size`, `hidden_size` or `batch_count` makes the whole call a silent
/// no-op. Nothing at or beyond `batch_count * hidden_size` is touched in
/// any state buffer.
pub fn lstm_step<S: ScalarOps>(
    ops: &S,
    weights: &Vec<u32>,
    input: &Vec<u32>,
    h: &mut Vec<u32>,
    c: &mut Vec<u32>,
    h_prev: &mut Vec<u32>,
    c_prev: &mut Vec<u32>,
    in_size: i32,
    hidden_size: i32,
    batch_count: i32,
    input_stride: i32,
)
    requires
        !rnn_noop(in_size, hidden_size, batch_count) ==> rows_fit(
            input.len() as int,
            clamp_size(batch_count),
            clamp_size(input_stride),
            clamp_size(in_size),
        ),
        !rnn_noop(in_size, hidden_size, batch_count) ==> rows_fit(
            old(h).len() as int,
            clamp_size(batch_count),
            clamp_size(hidden_size),
            clamp_size(hidden_size),
        ),
        !rnn_noop(in_size, hidden_size, batch_count) ==> rows_fit(
            old(c).len() as int,
            clamp_size(batch_count),
            clamp_size(hidden_size),
            clamp_size(hidden_size),
        ),
        !rnn_noop(in_size, hidden_size, batch_count) ==> rows_fit(
            old(h_prev).len() as int,
            clamp_size(batch_count),
            clamp_size(hidden_size),
            clamp_size(hidden_size),
        ),
        !rnn_noop(in_size, hidden_size, batch_count) ==> rows_fit(
            old(c_prev).len() as int,
            clamp_size(batch_count),
            clamp_size(hidden_size),
            clamp_size(hidden_size),
        ),
        !rnn_noop(in_size, hidden_size, batch_count) ==> weights.len() >= lstm_weights_len(
            in_size,
            hidden_size,
        ),
    ensures
        final(h).len() == old(h).len(),
        final(c).len() == old(c).len(),
        final(h_prev).len() == old(h_prev).len(),
        final(c_prev).len() == old(c_prev).len(),
        rnn_noop(in_size, hidden_size, batch_count) ==> final(h)@ == old(h)@ && final(c)@ == old(
            c,
        )@ && final(h_prev)@ == old(h_prev)@ && final(c_prev)@ == old(c_prev)@,
        forall|i: int|
            clamp_size(batch_count) * clamp_size(hidden_size) <= i < old(h).len()
                ==> #[trigger] final(h)@[i] == old(h)@[i],
        forall|i: int|
            clamp_size(batch_count) * clamp_size(hidden_size) <= i < old(c).len()
                ==> #[trigger] final(c)@[i] == old(c)@[i],
        forall|i: int|
            clamp_size(batch_count) * clamp_size(hidden_size) <= i < old(h_prev).len()
                ==> #[trigger] final(h_prev)@[i] == old(h_prev)@[i],
        forall|i: int|
            clamp_size(batch_count) * clamp_size(hidden_size) <= i < old(c_prev).len()
                ==> #[trigger] final(c_prev)@[i] == old(c_prev)@[i],
        !rnn_noop(in_size, hidden_size, batch_count) ==> forall|b: int, j: int|
            0 <= b < clamp_size(batch_count) && 0 <= j < clamp_size(hidden_size)
                ==> #[trigger] row_at(final(h_prev)@, clamp_size(hidden_size), b, j) == row_at(
                old(h)@,
                clamp_size(hidden_size),
                b,
                j,
            ),
        !rnn_noop(in_size, hidden_size, batch_count) ==> forall|b: int, j: int|
            0 <= b < clamp_size(batch_count) && 0 <= j < clamp_size(hidden_size)
                ==> #[trigger] row_at(final(c_prev)@, clamp_size(hidden_size), b, j) == row_at(
                old(c)@,
                clamp_size(hidden_size),
                b,
                j,
            ),
        !rnn_noop(in_size, hidden_size, batch_count) ==> forall|b: int, j: int|
            0 <= b < clamp_size(batch_count) && 0 <= j < clamp_size(hidden_size)
                ==> #[trigger] row_at(final(c)@, clamp_size(hidden_size), b, j) == lstm_c_value(
                ops,
                weights@,
                input@,
                old(h)@,
                old(c)@,
                in_size,
                hidden_size,
                input_stride,
                b,
                j,
            ),
        !rnn_noop(in_size, hidden_size, batch_count) ==> forall|b: int, j: int|
            0 <= b < clamp_size(batch_count) && 0 <= j < clamp_size(hidden_size)
                ==> #[trigger] row_at(final(h)@, clamp_size(hidden_size), b, j) == lstm_h_value(
                ops,
                weights@,
                input@,
                old(h)@,
                old(c)@,
                in_size,
                hidden_size,
                input_stride,
                b,
                j,
            ),
{
    let isz = to_usize(in_size);
    let hs = to_usize(hidden_size);
    let bc = to_usize(batch_count);
    let istr = to_usize(input_stride);
    if isz == 0 || hs == 0 || bc == 0 {
        return ;
    }
    proof {
        lemma_scale_le(0, hs as int, isz as int);
        lemma_scale_le(0, hs as int, hs as int);
    }
    let wsz = hs * isz;
    let usz = hs * hs;
    let wi: usize = 0;
    let wf = wi + wsz;
    let wo = wf + wsz;
    let wg = wo + wsz;
    let ui = wg + wsz;
    let uf = ui + usz;
    let uo = uf + usz;
    let ug = uo + usz;
    let bi = ug + usz;
    let bf = bi + hs;
    let bo = bf + hs;
    let bg = bo + hs;
    let mut b: usize = 0;
    while b < bc
        invariant
            b <= bc,
            isz == clamp_size(in_size),
            hs == clamp_size(hidden_size),
            bc == clamp_size(batch_count),
            istr == clamp_size(input_stride),
            isz > 0 && hs > 0 && bc > 0,
            !rnn_noop(in_size, hidden_size, batch_count),
            wsz == hs * isz,
            usz == hs * hs,
            wi == 0 && wf == wsz && wo == 2 * wsz && wg == 3 * wsz && ui == 4 * wsz,
            uf == ui + usz && uo == uf + usz && ug == uo + usz && bi == ug + usz,
            bf == bi + hs && bo == bf + hs && bg == bo + hs,
            bg + hs <= weights.len(),
            rows_fit(input.len() as int, bc as nat, istr as nat, isz as nat),
            rows_fit(old(h).len() as int, bc as nat, hs as nat, hs as nat),
            rows_fit(old(c).len() as int, bc as nat, hs as nat, hs as nat),
            rows_fit(old(h_prev).len() as int, bc as nat, hs as nat, hs as nat),
            rows_fit(old(c_prev).len() as int, bc as nat, hs as nat, hs as nat),
            h.len() == old(h).len(),
            c.len() == old(c).len(),
            h_prev.len() == old(h_prev).len(),
            c_prev.len() == old(c_prev).len(),
            forall|i: int|
                row_base(hs as nat, b as int) <= i < h.len() ==> #[trigger] h@[i] == old(h)@[i],
            forall|i: int|
                row_base(hs as nat, b as int) <= i < c.len() ==> #[trigger] c@[i] == old(c)@[i],
            forall|i: int|
                row_base(hs as nat, b as int) <= i < h_prev.len() ==> #[trigger] h_prev@[i] == old(
                    h_prev,
                )@[i],
            forall|i: int|
                row_base(hs as nat, b as int) <= i < c_prev.len() ==> #[trigger] c_prev@[i] == old(
                    c_prev,
                )@[i],
            forall|b2: int, j: int|
                0 <= b2 < b && 0 <= j < hs ==> #[trigger] row_at(h_prev@, hs as nat, b2, j)
                    == row_at(old(h)@, hs as nat, b2, j),
            forall|b2: int, j: int|
                0 <= b2 < b && 0 <= j < hs ==> #[trigger] row_at(c_prev@, hs as nat, b2, j)
                    == row_at(old(c)@, hs as nat, b2, j),
            forall|b2: int, j: int|
                0 <= b2 < b && 0 <= j < hs ==> #[trigger] row_at(c@, hs as nat, b2, j)
                    == lstm_c_value(
                    ops,
                    weights@,
                    input@,
                    old(h)@,
                    old(c)@,
                    in_size,
                    hidden_size,
                    input_stride,
                    b2,
                    j,
                ),
            forall|b2: int, j: int|
                0 <= b2 < b && 0 <= j < hs ==> #[trigger] row_at(h@, hs as nat, b2, j)
                    == lstm_h_value(
                    ops,
                    weights@,
                    input@,
                    old(h)@,
                    old(c)@,
                    in_size,
                    hidden_size,
                    input_stride,
                    b2,
                    j,
                ),
        decreases bc - b,
    {
        proof {
            assert(row_base(istr as nat, b as int) + isz <= input.len());
            assert(row_base(hs as nat, b as int) + hs <= h.len());
            assert(row_base(hs as nat, b as int) + hs <= c.len());
            assert(row_base(hs as nat, b as int) + hs <= h_prev.len());
            assert(row_base(hs as nat, b as int) + hs <= c_prev.len());
            lemma_row_step(hs as nat, b as int);
        }
        let input_base = b * istr;
        let state_base = b * hs;
        let ghost pre_snap_h = h_prev@;
        copy_range(h_prev, state_base, h, state_base, hs);
        let ghost pre_snap_c = c_prev@;
        copy_range(c_prev, state_base, c, state_base, hs);
        proof {
            assert forall|b2: int, j: int|
                0 <= b2 < b && 0 <= j < hs implies #[trigger] row_at(h_prev@, hs as nat, b2, j)
                == row_at(old(h)@, hs as nat, b2, j) by {
                lemma_row_lt(hs as nat, b2, j, b as int);
                assert(row_at(pre_snap_h, hs as nat, b2, j) == row_at(old(h)@, hs as nat, b2, j));
                assert(h_prev@[b2 * (hs as nat) + j] == pre_snap_h[b2 * (hs as nat) + j]);
            }
            assert forall|b2: int, j: int|
                0 <= b2 < b && 0 <= j < hs implies #[trigger] row_at(c_prev@, hs as nat, b2, j)
                == row_at(old(c)@, hs as nat, b2, j) by {
                lemma_row_lt(hs as nat, b2, j, b as int);
                assert(row_at(pre_snap_c, hs as nat, b2, j) == row_at(old(c)@, hs as nat, b2, j));
                assert(c_prev@[b2 * (hs as nat) + j] == pre_snap_c[b2 * (hs as nat) + j]);
            }
        }
        let mut j: usize = 0;
        while j < hs
            invariant
                j <= hs,
                b < bc,
                isz == clamp_size(in_size),
                hs == clamp_size(hidden_size),
                bc == clamp_size(batch_count),
                istr == clamp_size(input_stride),
                isz > 0 && hs > 0,
                wsz == hs * isz,
                usz == hs * hs,
                wi == 0 && wf == wsz && wo == 2 * wsz && wg == 3 * wsz && ui == 4 * wsz,
                uf == ui + usz && uo == uf + usz && ug == uo + usz && bi == ug + usz,
                bf == bi + hs && bo == bf + hs && bg == bo + hs,
                bg + hs <= weights.len(),
                input_base == row_base(istr as nat, b as int),
                state_base == row_base(hs as nat, b as int),
                input_base + isz <= input.len(),
                state_base + hs <= h.len(),
                state_base + hs <= c.len(),
                state_base + hs <= h_prev.len(),
                state_base + hs <= c_prev.len(),
                h.len() == old(h).len(),
                c.len() == old(c).len(),
                h_prev.len() == old(h_prev).len(),
                c_prev.len() == old(c_prev).len(),
                forall|i: int|
                    state_base + hs <= i < h.len() ==> #[trigger] h@[i] == old(h)@[i],
                forall|i: int|
                    state_base + hs <= i < c.len() ==> #[trigger] c@[i] == old(c)@[i],
                forall|i: int|
                    state_base + hs <= i < h_prev.len() ==> #[trigger] h_prev@[i] == old(
                        h_prev,
                    )@[i],
                forall|i: int|
                    state_base + hs <= i < c_prev.len() ==> #[trigger] c_prev@[i] == old(
                        c_prev,
                    )@[i],
                forall|i: int|
                    state_base <= i < state_base + hs ==> #[trigger] h_prev@[i] == old(h)@[i],
                forall|i: int|
                    state_base <= i < state_base + hs ==> #[trigger] c_prev@[i] == old(c)@[i],
                forall|i: int|
                    state_base <= i < state_base + j ==> #[trigger] c@[i] == lstm_c_value(
                        ops,
                        weights@,
                        input@,
                        old(h)@,
                        old(c)@,
                        in_size,
                        hidden_size,
                        input_stride,
                        b as int,
                        i - state_base,
                    ),
                forall|i: int|
                    state_base <= i < state_base + j ==> #[trigger] h@[i] == lstm_h_value(
                        ops,
                        weights@,
                        input@,
                        old(h)@,
                        old(c)@,
                        in_size,
                        hidden_size,
                        input_stride,
                        b as int,
                        i - state_base,
                    ),
                forall|b2: int, j2: int|
                    0 <= b2 < b && 0 <= j2 < hs ==> #[trigger] row_at(h_prev@, hs as nat, b2, j2)
                        == row_at(old(h)@, hs as nat, b2, j2),
                forall|b2: int, j2: int|
                    0 <= b2 < b && 0 <= j2 < hs ==> #[trigger] row_at(c_prev@, hs as nat, b2, j2)
                        == row_at(old(c)@, hs as nat, b2, j2),
                forall|b2: int, j2: int|
                    0 <= b2 < b && 0 <= j2 < hs ==> #[trigger] row_at(c@, hs as nat, b2, j2)
                        == lstm_c_value(
                        ops,
                        weights@,
                        input@,
                        old(h)@,
                        old(c)@,
                        in_size,
                        hidden_size,
                        input_stride,
                        b2,
                        j2,
                    ),
                forall|b2: int, j2: int|
                    0 <= b2 < b && 0 <= j2 < hs ==> #[trigger] row_at(h@, hs as nat, b2, j2)
                        == lstm_h_value(
                        ops,
                        weights@,
                        input@,
                        old(h)@,
                        old(c)@,
                        in_size,
                        hidden_size,
                        input_stride,
                        b2,
                        j2,
                    ),
            decreases hs - j,
        {
            proof {
                lemma_scale_le(j as int + 1, hs as int, isz as int);
                lemma_scale_le(j as int + 1, hs as int, hs as int);
                lemma_row_step(isz as nat, j as int);
                lemma_row_step(hs as nat, j as int);
            }
            let wi_row = wi + j * isz;
            let wf_row = wf + j * isz;
            let wo_row = wo + j * isz;
            let wg_row = wg + j * isz;
            let ui_row = ui + j * hs;
            let uf_row = uf + j * hs;
            let uo_row = uo + j * hs;
            let ug_row = ug + j * hs;
            let mut sum_i = dot(ops, weights, wi_row, input, input_base, isz);
            let mut sum_f = dot(ops, weights, wf_row, input, input_base, isz);
            let mut sum_o = dot(ops, weights, wo_row, input, input_base, isz);
            let mut sum_g = dot(ops, weights, wg_row, input, input_base, isz);
            proof {
                lemma_dot_spec_same_range(
                    ops,
                    weights@,
                    ui_row as int,
                    h_prev@,
                    state_base as int,
                    old(h)@,
                    state_base as int,
                    hs as int,
                );
                lemma_dot_spec_same_range(
                    ops,
                    weights@,
                    uf_row as int,
                    h_prev@,
                    state_base as int,
                    old(h)@,
                    state_base as int,
                    hs as int,
                );
                lemma_dot_spec_same_range(
                    ops,
                    weights@,
                    uo_row as int,
                    h_prev@,
                    state_base as int,
                    old(h)@,
                    state_base as int,
                    hs as int,
                );
                lemma_dot_spec_same_range(
                    ops,
                    weights@,
                    ug_row as int,
                    h_prev@,
                    state_base as int,
                    old(h)@,
                    state_base as int,
                    hs as int,
                );
            }
            sum_i = ops.fadd(sum_i, dot(ops, weights, ui_row, h_prev, state_base, hs));
            sum_f = ops.fadd(sum_f, dot(ops, weights, uf_row, h_prev, state_base, hs));
            sum_o = ops.fadd(sum_o, dot(ops, weights, uo_row, h_prev, state_base, hs));
            sum_g = ops.fadd(sum_g, dot(ops, weights, ug_row, h_prev, state_base, hs));
            sum_i = ops.fadd(sum_i, weights[bi + j]);
            sum_f = ops.fadd(sum_f, weights[bf + j]);
            sum_o = ops.fadd(sum_o, weights[bo + j]);
            sum_g = ops.fadd(sum_g, weights[bg + j]);
            let i_gate = sigmoid(ops, sum_i);
            let f_gate = sigmoid(ops, sum_f);
            let o_gate = sigmoid(ops, sum_o);
            let g_gate = ops.ftanh(sum_g);
            proof {
                assert(sum_i == lstm_gate_pre(
                    ops,
                    weights@,
                    input@,
                    old(h)@,
                    in_size,
                    hidden_size,
                    input_stride,
                    0,
                    b as int,
                    j as int,
                ));
                assert(sum_f == lstm_gate_pre(
                    ops,
                    weights@,
                    input@,
                    old(h)@,
                    in_size,
                    hidden_size,
                    input_stride,
                    1,
                    b as int,
                    j as int,
                ));
                assert(sum_o == lstm_gate_pre(
                    ops,
                    weights@,
                    input@,
                    old(h)@,
                    in_size,
                    hidden_size,
                    input_stride,
                    2,
                    b as int,
                    j as int,
                ));
                assert(sum_g == lstm_gate_pre(
                    ops,
                    weights@,
                    input@,
                    old(h)@,
                    in_size,
                    hidden_size,
                    input_stride,
                    3,
                    b as int,
                    j as int,
                ));
            }
            let prev_c = c_prev[state_base + j];
            let next_c = ops.fadd(ops.fmul(f_gate, prev_c), ops.fmul(i_gate, g_gate));
            let ghost pre_c = c@;
            c[state_base + j] = next_c;
            let ghost pre_h = h@;
            h[state_base + j] = ops.fmul(o_gate, ops.ftanh(next_c));
            proof {
                assert(c@[state_base + j] == lstm_c_value(
                    ops,
                    weights@,
                    input@,
                    old(h)@,
                    old(c)@,
                    in_size,
                    hidden_size,
                    input_stride,
                    b as int,
                    j as int,
                ));
                assert(h@[state_base + j] == lstm_h_value(
                    ops,
                    weights@,
                    input@,
                    old(h)@,
                    old(c)@,
                    in_size,
                    hidden_size,
                    input_stride,
                    b as int,
                    j as int,
                ));
                assert forall|b2: int, j2: int|
                    0 <= b2 < b && 0 <= j2 < hs implies #[trigger] row_at(c@, hs as nat, b2, j2)
                    == row_at(pre_c, hs as nat, b2, j2) by {
                    lemma_row_lt(hs as nat, b2, j2, b as int);
                }
                assert forall|b2: int, j2: int|
                    0 <= b2 < b && 0 <= j2 < hs implies #[trigger] row_at(h@, hs as nat, b2, j2)
                    == row_at(pre_h, hs as nat, b2, j2) by {
                    lemma_row_lt(hs as nat, b2, j2, b as int);
                }
            }
            j = j + 1;
        }
        proof {
            lemma_row_step(hs as nat, b as int);
            assert forall|b2: int, j2: int|
                0 <= b2 < b + 1 && 0 <= j2 < hs implies #[trigger] row_at(
                h_prev@,
                hs as nat,
                b2,
                j2,
            ) == row_at(old(h)@, hs as nat, b2, j2) by {
                if b2 == b as int {
                    assert(h_prev@[b2 * (hs as nat) + j2] == old(h)@[b2 * (hs as nat) + j2]);
                }
            }
            assert forall|b2: int, j2: int|
                0 <= b2 < b + 1 && 0 <= j2 < hs implies #[trigger] row_at(
                c_prev@,
                hs as nat,
                b2,
                j2,
            ) == row_at(old(c)@, hs as nat, b2, j2) by {
                if b2 == b as int {
                    assert(c_prev@[b2 * (hs as nat) + j2] == old(c)@[b2 * (hs as nat) + j2]);
                }
            }
            assert forall|b2: int, j2: int|
                0 <= b2 < b + 1 && 0 <= j2 < hs implies #[trigger] row_at(c@, hs as nat, b2, j2)
                == lstm_c_value(
                ops,
                weights@,
                input@,
                old(h)@,
                old(c)@,
                in_size,
                hidden_size,
                input_stride,
                b2,
                j2,
            ) by {
                if b2 == b as int {
                    assert(c@[b2 * (hs as nat) + j2] == lstm_c_value(
                        ops,
                        weights@,
                        input@,
                        old(h)@,
                        old(c)@,
                        in_size,
                        hidden_size,
                        input_stride,
                        b2,
                        j2,
                    ));
                }
            }
            assert forall|b2: int, j2: int|
                0 <= b2 < b + 1 && 0 <= j2 < hs implies #[trigger] row_at(h@, hs as nat, b2, j2)
                == lstm_h_value(
                ops,
                weights@,
                input@,
                old(h)@,
                old(c)@,
                in_size,
                hidden_size,
                input_stride,
                b2,
                j2,
            ) by {
                if b2 == b as int {
                    assert(h@[b2 * (hs as nat) + j2] == lstm_h_value(
                        ops,
                        weights@,
                        input@,
                        old(h)@,
                        old(c)@,
                        in_size,
                        hidden_size,
                        input_stride,
                        b2,
                        j2,
                    ));
                }
            }
        }
        b = b + 1;
    }
    proof {
        assert(row_base(hs as nat, bc as int) == clamp_size(batch_count) * clamp_size(
            hidden_size,
        ));
    }
}

} // verus!
