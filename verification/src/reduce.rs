//! The vector reduction primitives.
//!
//! Both reductions process four elements per step with four parallel
//! accumulator lanes, fold the lanes left to right, and finish the
//! remainder with a serial loop. Single-precision sums are not
//! order-invariant, so this lane-wise-then-serial order is part of the
//! interface: the spec functions here write it out exactly, and the two
//! executable reductions are proved to return precisely that fold of the
//! host's multiply and add operations.

use vstd::prelude::*;

use vstd::arithmetic::div_mod::lemma_fundamental_div_mod;
use vstd::arithmetic::div_mod::lemma_fundamental_div_mod_converse;

use crate::scalar::ScalarOps;
use crate::scalar::ZERO_BITS;

verus! {

/// Accumulator of lane `lane` after `groups` full groups of four:
/// the host sum of `w[w_off + 4*g + lane] * x[x_off + 4*g + lane]` over
/// `g < groups`, folded in group order from a zero seed.
pub open spec fn lane_sum_spec<S: ScalarOps>(
    ops: &S,
    w: Seq<u32>,
    w_off: int,
    x: Seq<u32>,
    x_off: int,
    lane: int,
    groups: int,
) -> u32
    decreases groups,
{
    if groups <= 0 {
        ZERO_BITS
    } else {
        ops.fadd_spec(
            lane_sum_spec(ops, w, w_off, x, x_off, lane, groups - 1),
            ops.fmul_spec(
                w[w_off + 4 * (groups - 1) + lane],
                x[x_off + 4 * (groups - 1) + lane],
            ),
        )
    }
}

/// The four lane accumulators folded left to right.
pub open spec fn lanes_folded_spec<S: ScalarOps>(
    ops: &S,
    w: Seq<u32>,
    w_off: int,
    x: Seq<u32>,
    x_off: int,
    groups: int,
) -> u32 {
    ops.fadd_spec(
        ops.fadd_spec(
            ops.fadd_spec(
                lane_sum_spec(ops, w, w_off, x, x_off, 0, groups),
                lane_sum_spec(ops, w, w_off, x, x_off, 1, groups),
            ),
            lane_sum_spec(ops, w, w_off, x, x_off, 2, groups),
        ),
        lane_sum_spec(ops, w, w_off, x, x_off, 3, groups),
    )
}

/// Serial remainder: elements `[start, end)` folded onto `seed` in index
/// order.
pub open spec fn serial_sum_spec<S: ScalarOps>(
    ops: &S,
    seed: u32,
    w: Seq<u32>,
    w_off: int,
    x: Seq<u32>,
    x_off: int,
    start: int,
    end: int,
) -> u32
    decreases end - start,
{
    if end <= start {
        seed
    } else {
        ops.fadd_spec(
            serial_sum_spec(ops, seed, w, w_off, x, x_off, start, end - 1),
            ops.fmul_spec(w[w_off + end - 1], x[x_off + end - 1]),
        )
    }
}

/// The canonical reduction of `w[w_off + i] * x[x_off + i]` over
/// `i in [0, n)`: four lanes over the full groups of four, folded left to
/// right, then the remainder added serially in index order.
pub open spec fn dot_spec<S: ScalarOps>(
    ops: &S,
    w: Seq<u32>,
    w_off: int,
    x: Seq<u32>,
    x_off: int,
    n: int,
) -> u32 {
    serial_sum_spec(
        ops,
        lanes_folded_spec(ops, w, w_off, x, x_off, n / 4),
        w,
        w_off,
        x,
        x_off,
        4 * (n / 4),
        n,
    )
}

/// Lane accumulator of the gated reduction: terms are
/// `w[..] * (a[..] * b[..])`.
pub open spec fn lane_sum_mul_spec<S: ScalarOps>(
    ops: &S,
    w: Seq<u32>,
    w_off: int,
    a: Seq<u32>,
    a_off: int,
    b: Seq<u32>,
    b_off: int,
    lane: int,
    groups: int,
) -> u32
    decreases groups,
{
    if groups <= 0 {
        ZERO_BITS
    } else {
        ops.fadd_spec(
            lane_sum_mul_spec(ops, w, w_off, a, a_off, b, b_off, lane, groups - 1),
            ops.fmul_spec(
                w[w_off + 4 * (groups - 1) + lane],
                ops.fmul_spec(
                    a[a_off + 4 * (groups - 1) + lane],
                    b[b_off + 4 * (groups - 1) + lane],
                ),
            ),
        )
    }
}

/// The four gated lane accumulators folded left to right.
pub open spec fn lanes_folded_mul_spec<S: ScalarOps>(
    ops: &S,
    w: Seq<u32>,
    w_off: int,
    a: Seq<u32>,
    a_off: int,
    b: Seq<u32>,
    b_off: int,
    groups: int,
) -> u32 {
    ops.fadd_spec(
        ops.fadd_spec(
            ops.fadd_spec(
                lane_sum_mul_spec(ops, w, w_off, a, a_off, b, b_off, 0, groups),
                lane_sum_mul_spec(ops, w, w_off, a, a_off, b, b_off, 1, groups),
            ),
            lane_sum_mul_spec(ops, w, w_off, a, a_off, b, b_off, 2, groups),
        ),
        lane_sum_mul_spec(ops, w, w_off, a, a_off, b, b_off, 3, groups),
    )
}

/// Serial remainder of the gated reduction.
pub open spec fn serial_sum_mul_spec<S: ScalarOps>(
    ops: &S,
    seed: u32,
    w: Seq<u32>,
    w_off: int,
    a: Seq<u32>,
    a_off: int,
    b: Seq<u32>,
    b_off: int,
    start: int,
    end: int,
) -> u32
    decreases end - start,
{
    if end <= start {
        seed
    } else {
        ops.fadd_spec(
            serial_sum_mul_spec(ops, seed, w, w_off, a, a_off, b, b_off, start, end - 1),
            ops.fmul_spec(
                w[w_off + end - 1],
                ops.fmul_spec(a[a_off + end - 1], b[b_off + end - 1]),
            ),
        )
    }
}

/// The canonical reduction of `w[w_off + i] * (a[a_off + i] * b[b_off + i])`
/// over `i in [0, n)`, in the same lane-wise-then-serial order as
/// [`dot_spec`].
pub open spec fn dot_mul_spec<S: ScalarOps>(
    ops: &S,
    w: Seq<u32>,
    w_off: int,
    a: Seq<u32>,
    a_off: int,
    b: Seq<u32>,
    b_off: int,
    n: int,
) -> u32 {
    serial_sum_mul_spec(
        ops,
        lanes_folded_mul_spec(ops, w, w_off, a, a_off, b, b_off, n / 4),
        w,
        w_off,
        a,
        a_off,
        b,
        b_off,
        4 * (n / 4),
        n,
    )
}

/// A lane accumulator reads only `x[x_off .. x_off + 4*groups)`, so two
/// ranges holding the same elements give the same accumulator.
pub proof fn lemma_lane_sum_same_range<S: ScalarOps>(
    ops: &S,
    w: Seq<u32>,
    w_off: int,
    x1: Seq<u32>,
    x1_off: int,
    x2: Seq<u32>,
    x2_off: int,
    lane: int,
    groups: int,
)
    requires
        0 <= lane < 4,
        forall|i: int|
            x1_off <= i < x1_off + 4 * groups ==> #[trigger] x1[i] == x2[i - x1_off + x2_off],
    ensures
        lane_sum_spec(ops, w, w_off, x1, x1_off, lane, groups) == lane_sum_spec(
            ops,
            w,
            w_off,
            x2,
            x2_off,
            lane,
            groups,
        ),
    decreases groups,
{
    if groups > 0 {
        lemma_lane_sum_same_range(ops, w, w_off, x1, x1_off, x2, x2_off, lane, groups - 1);
        assert(x1[x1_off + 4 * (groups - 1) + lane] == x2[x2_off + 4 * (groups - 1) + lane]);
    }
}

/// The serial remainder reads only `x[x_off + start .. x_off + end)`.
pub proof fn lemma_serial_sum_same_range<S: ScalarOps>(
    ops: &S,
    seed: u32,
    w: Seq<u32>,
    w_off: int,
    x1: Seq<u32>,
    x1_off: int,
    x2: Seq<u32>,
    x2_off: int,
    start: int,
    end: int,
)
    requires
        forall|i: int|
            x1_off + start <= i < x1_off + end ==> #[trigger] x1[i] == x2[i - x1_off + x2_off],
    ensures
        serial_sum_spec(ops, seed, w, w_off, x1, x1_off, start, end) == serial_sum_spec(
            ops,
            seed,
            w,
            w_off,
            x2,
            x2_off,
            start,
            end,
        ),
    decreases end - start,
{
    if end > start {
        lemma_serial_sum_same_range(ops, seed, w, w_off, x1, x1_off, x2, x2_off, start, end - 1);
        assert(x1[x1_off + end - 1] == x2[x2_off + end - 1]);
    }
}

/// The whole reduction reads only `x[x_off .. x_off + n)`: two ranges
/// holding the same elements reduce to the same result.
pub proof fn lemma_dot_spec_same_range<S: ScalarOps>(
    ops: &S,
    w: Seq<u32>,
    w_off: int,
    x1: Seq<u32>,
    x1_off: int,
    x2: Seq<u32>,
    x2_off: int,
    n: int,
)
    requires
        0 <= n,
        forall|i: int| x1_off <= i < x1_off + n ==> #[trigger] x1[i] == x2[i - x1_off + x2_off],
    ensures
        dot_spec(ops, w, w_off, x1, x1_off, n) == dot_spec(ops, w, w_off, x2, x2_off, n),
{
    lemma_fundamental_div_mod(n, 4);
    let groups = n / 4;
    assert(0 <= n % 4 < 4) by (nonlinear_arith)
        requires
            0 <= n,
    ;
    lemma_lane_sum_same_range(ops, w, w_off, x1, x1_off, x2, x2_off, 0, groups);
    lemma_lane_sum_same_range(ops, w, w_off, x1, x1_off, x2, x2_off, 1, groups);
    lemma_lane_sum_same_range(ops, w, w_off, x1, x1_off, x2, x2_off, 2, groups);
    lemma_lane_sum_same_range(ops, w, w_off, x1, x1_off, x2, x2_off, 3, groups);
    lemma_serial_sum_same_range(
        ops,
        lanes_folded_spec(ops, w, w_off, x1, x1_off, groups),
        w,
        w_off,
        x1,
        x1_off,
        x2,
        x2_off,
        4 * groups,
        n,
    );
}

/// A gated lane accumulator reads only the two factor ranges, so ranges
/// holding the same elements give the same accumulator.
pub proof fn lemma_lane_sum_mul_same_range<S: ScalarOps>(
    ops: &S,
    w: Seq<u32>,
    w_off: int,
    a1: Seq<u32>,
    a1_off: int,
    a2: Seq<u32>,
    a2_off: int,
    b1: Seq<u32>,
    b1_off: int,
    b2: Seq<u32>,
    b2_off: int,
    lane: int,
    groups: int,
)
    requires
        0 <= lane < 4,
        forall|i: int|
            a1_off <= i < a1_off + 4 * groups ==> #[trigger] a1[i] == a2[i - a1_off + a2_off],
        forall|i: int|
            b1_off <= i < b1_off + 4 * groups ==> #[trigger] b1[i] == b2[i - b1_off + b2_off],
    ensures
        lane_sum_mul_spec(ops, w, w_off, a1, a1_off, b1, b1_off, lane, groups)
            == lane_sum_mul_spec(ops, w, w_off, a2, a2_off, b2, b2_off, lane, groups),
    decreases groups,
{
    if groups > 0 {
        lemma_lane_sum_mul_same_range(
            ops,
            w,
            w_off,
            a1,
            a1_off,
            a2,
            a2_off,
            b1,
            b1_off,
            b2,
            b2_off,
            lane,
            groups - 1,
        );
        assert(a1[a1_off + 4 * (groups - 1) + lane] == a2[a2_off + 4 * (groups - 1) + lane]);
        assert(b1[b1_off + 4 * (groups - 1) + lane] == b2[b2_off + 4 * (groups - 1) + lane]);
    }
}

/// The gated serial remainder reads only the two factor ranges.
pub proof fn lemma_serial_sum_mul_same_range<S: ScalarOps>(
    ops: &S,
    seed: u32,
    w: Seq<u32>,
    w_off: int,
    a1: Seq<u32>,
    a1_off: int,
    a2: Seq<u32>,
    a2_off: int,
    b1: Seq<u32>,
    b1_off: int,
    b2: Seq<u32>,
    b2_off: int,
    start: int,
    end: int,
)
    requires
        forall|i: int|
            a1_off + start <= i < a1_off + end ==> #[trigger] a1[i] == a2[i - a1_off + a2_off],
        forall|i: int|
            b1_off + start <= i < b1_off + end ==> #[trigger] b1[i] == b2[i - b1_off + b2_off],
    ensures
        serial_sum_mul_spec(ops, seed, w, w_off, a1, a1_off, b1, b1_off, start, end)
            == serial_sum_mul_spec(ops, seed, w, w_off, a2, a2_off, b2, b2_off, start, end),
    decreases end - start,
{
    if end > start {
        lemma_serial_sum_mul_same_range(
            ops,
            seed,
            w,
            w_off,
            a1,
            a1_off,
            a2,
            a2_off,
            b1,
            b1_off,
            b2,
            b2_off,
            start,
            end - 1,
        );
        assert(a1[a1_off + end - 1] == a2[a2_off + end - 1]);
        assert(b1[b1_off + end - 1] == b2[b2_off + end - 1]);
    }
}

/// The whole gated reduction reads only the two factor ranges.
pub proof fn lemma_dot_mul_spec_same_range<S: ScalarOps>(
    ops: &S,
    w: Seq<u32>,
    w_off: int,
    a1: Seq<u32>,
    a1_off: int,
    a2: Seq<u32>,
    a2_off: int,
    b1: Seq<u32>,
    b1_off: int,
    b2: Seq<u32>,
    b2_off: int,
    n: int,
)
    requires
        0 <= n,
        forall|i: int| a1_off <= i < a1_off + n ==> #[trigger] a1[i] == a2[i - a1_off + a2_off],
        forall|i: int| b1_off <= i < b1_off + n ==> #[trigger] b1[i] == b2[i - b1_off + b2_off],
    ensures
        dot_mul_spec(ops, w, w_off, a1, a1_off, b1, b1_off, n) == dot_mul_spec(
            ops,
            w,
            w_off,
            a2,
            a2_off,
            b2,
            b2_off,
            n,
        ),
{
    lemma_fundamental_div_mod(n, 4);
    let groups = n / 4;
    assert(0 <= n % 4 < 4) by (nonlinear_arith)
        requires
            0 <= n,
    ;
    lemma_lane_sum_mul_same_range(
        ops, w, w_off, a1, a1_off, a2, a2_off, b1, b1_off, b2, b2_off, 0, groups,
    );
    lemma_lane_sum_mul_same_range(
        ops, w, w_off, a1, a1_off, a2, a2_off, b1, b1_off, b2, b2_off, 1, groups,
    );
    lemma_lane_sum_mul_same_range(
        ops, w, w_off, a1, a1_off, a2, a2_off, b1, b1_off, b2, b2_off, 2, groups,
    );
    lemma_lane_sum_mul_same_range(
        ops, w, w_off, a1, a1_off, a2, a2_off, b1, b1_off, b2, b2_off, 3, groups,
    );
    lemma_serial_sum_mul_same_range(
        ops,
        lanes_folded_mul_spec(ops, w, w_off, a1, a1_off, b1, b1_off, groups),
        w,
        w_off,
        a1,
        a1_off,
        a2,
        a2_off,
        b1,
        b1_off,
        b2,
        b2_off,
        4 * groups,
        n,
    );
}

/// Pre-activation of one recurrent gate unit: the canonical reduction of an
/// input-to-gate weight row against the input row, plus the canonical
/// reduction of a hidden-to-gate weight row against the previous hidden
/// row, plus a bias — folded in exactly that order.
pub open spec fn gate_pre_spec<S: ScalarOps>(
    ops: &S,
    w: Seq<u32>,
    w_row: int,
    u_row: int,
    bias_at: int,
    x: Seq<u32>,
    x_off: int,
    n_x: int,
    h0: Seq<u32>,
    h_off: int,
    n_h: int,
) -> u32 {
    ops.fadd_spec(
        ops.fadd_spec(
            dot_spec(ops, w, w_row, x, x_off, n_x),
            dot_spec(ops, w, u_row, h0, h_off, n_h),
        ),
        w[bias_at],
    )
}

/// Accumulate `w[w_off + i] * x[x_off + i]` for `i` in `[0, n)`, four lanes
/// at a time with a serial remainder: the result is exactly the canonical
/// reduction [`dot_spec`] of the host's multiply and add operations.
pub fn dot<S: ScalarOps>(
    ops: &S,
    w: &Vec<u32>,
    w_off: usize,
    x: &Vec<u32>,
    x_off: usize,
    n: usize,
) -> (r: u32)
    requires
        w_off + n <= w.len(),
        x_off + n <= x.len(),
    ensures
        r == dot_spec(ops, w@, w_off as int, x@, x_off as int, n as int),
{
    let mut lane0: u32 = ZERO_BITS;
    let mut lane1: u32 = ZERO_BITS;
    let mut lane2: u32 = ZERO_BITS;
    let mut lane3: u32 = ZERO_BITS;
    let mut i: usize = 0;
    let ghost mut g: int = 0;
    while n - i >= 4
        invariant
            i <= n,
            0 <= g,
            i == 4 * g,
            w_off + n <= w.len(),
            x_off + n <= x.len(),
            lane0 == lane_sum_spec(ops, w@, w_off as int, x@, x_off as int, 0, g),
            lane1 == lane_sum_spec(ops, w@, w_off as int, x@, x_off as int, 1, g),
            lane2 == lane_sum_spec(ops, w@, w_off as int, x@, x_off as int, 2, g),
            lane3 == lane_sum_spec(ops, w@, w_off as int, x@, x_off as int, 3, g),
        decreases n - i,
    {
        lane0 = ops.fadd(lane0, ops.fmul(w[w_off + i], x[x_off + i]));
        lane1 = ops.fadd(lane1, ops.fmul(w[w_off + i + 1], x[x_off + i + 1]));
        lane2 = ops.fadd(lane2, ops.fmul(w[w_off + i + 2], x[x_off + i + 2]));
        lane3 = ops.fadd(lane3, ops.fmul(w[w_off + i + 3], x[x_off + i + 3]));
        i = i + 4;
        proof {
            g = g + 1;
        }
    }
    proof {
        lemma_fundamental_div_mod_converse(n as int, 4, g, n as int - 4 * g);
    }
    let mut total = ops.fadd(ops.fadd(ops.fadd(lane0, lane1), lane2), lane3);
    assert(total == lanes_folded_spec(
        ops,
        w@,
        w_off as int,
        x@,
        x_off as int,
        n as int / 4,
    ));
    while i < n
        invariant
            4 * (n as int / 4) <= i <= n,
            w_off + n <= w.len(),
            x_off + n <= x.len(),
            total == serial_sum_spec(
                ops,
                lanes_folded_spec(ops, w@, w_off as int, x@, x_off as int, n as int / 4),
                w@,
                w_off as int,
                x@,
                x_off as int,
                4 * (n as int / 4),
                i as int,
            ),
        decreases n - i,
    {
        total = ops.fadd(total, ops.fmul(w[w_off + i], x[x_off + i]));
        i = i + 1;
    }
    total
}

/// Accumulate `w[w_off + i] * (a[a_off + i] * b[b_off + i])` for `i` in
/// `[0, n)`: the result is exactly the canonical gated reduction
/// [`dot_mul_spec`]. Used where a hidden state must be gated elementwise
/// before the inner product.
pub fn dot_mul<S: ScalarOps>(
    ops: &S,
    w: &Vec<u32>,
    w_off: usize,
    a: &Vec<u32>,
    a_off: usize,
    b: &Vec<u32>,
    b_off: usize,
    n: usize,
) -> (r: u32)
    requires
        w_off + n <= w.len(),
        a_off + n <= a.len(),
        b_off + n <= b.len(),
    ensures
        r == dot_mul_spec(ops, w@, w_off as int, a@, a_off as int, b@, b_off as int, n as int),
{
    let mut lane0: u32 = ZERO_BITS;
    let mut lane1: u32 = ZERO_BITS;
    let mut lane2: u32 = ZERO_BITS;
    let mut lane3: u32 = ZERO_BITS;
    let mut i: usize = 0;
    let ghost mut g: int = 0;
    while n - i >= 4
        invariant
            i <= n,
            0 <= g,
            i == 4 * g,
            w_off + n <= w.len(),
            a_off + n <= a.len(),
            b_off + n <= b.len(),
            lane0 == lane_sum_mul_spec(
                ops,
                w@,
                w_off as int,
                a@,
                a_off as int,
                b@,
                b_off as int,
                0,
                g,
            ),
            lane1 == lane_sum_mul_spec(
                ops,
                w@,
                w_off as int,
                a@,
                a_off as int,
                b@,
                b_off as int,
                1,
                g,
            ),
            lane2 == lane_sum_mul_spec(
                ops,
                w@,
                w_off as int,
                a@,
                a_off as int,
                b@,
                b_off as int,
                2,
                g,
            ),
            lane3 == lane_sum_mul_spec(
                ops,
                w@,
                w_off as int,
                a@,
                a_off as int,
                b@,
                b_off as int,
                3,
                g,
            ),
        decreases n - i,
    {
        lane0 = ops.fadd(
            lane0,
            ops.fmul(w[w_off + i], ops.fmul(a[a_off + i], b[b_off + i])),
        );
        lane1 = ops.fadd(
            lane1,
            ops.fmul(w[w_off + i + 1], ops.fmul(a[a_off + i + 1], b[b_off + i + 1])),
        );
        lane2 = ops.fadd(
            lane2,
            ops.fmul(w[w_off + i + 2], ops.fmul(a[a_off + i + 2], b[b_off + i + 2])),
        );
        lane3 = ops.fadd(
            lane3,
            ops.fmul(w[w_off + i + 3], ops.fmul(a[a_off + i + 3], b[b_off + i + 3])),
        );
        i = i + 4;
        proof {
            g = g + 1;
        }
    }
    proof {
        lemma_fundamental_div_mod_converse(n as int, 4, g, n as int - 4 * g);
    }
    let mut total = ops.fadd(ops.fadd(ops.fadd(lane0, lane1), lane2), lane3);
    assert(total == lanes_folded_mul_spec(
        ops,
        w@,
        w_off as int,
        a@,
        a_off as int,
        b@,
        b_off as int,
        n as int / 4,
    ));
    while i < n
        invariant
            4 * (n as int / 4) <= i <= n,
            w_off + n <= w.len(),
            a_off + n <= a.len(),
            b_off + n <= b.len(),
            total == serial_sum_mul_spec(
                ops,
                lanes_folded_mul_spec(
                    ops,
                    w@,
                    w_off as int,
                    a@,
                    a_off as int,
                    b@,
                    b_off as int,
                    n as int / 4,
                ),
                w@,
                w_off as int,
                a@,
                a_off as int,
                b@,
                b_off as int,
                4 * (n as int / 4),
                i as int,
            ),
        decreases n - i,
    {
        total = ops.fadd(
            total,
            ops.fmul(w[w_off + i], ops.fmul(a[a_off + i], b[b_off + i])),
        );
        i = i + 1;
    }
    total
}

} // verus!
