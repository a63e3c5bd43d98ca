use nn_kernels::dense_forward;
use nn_kernels::dot;
use nn_kernels::dot_mul;
use nn_kernels::gru_step;
use nn_kernels::lstm_step;
use nn_kernels::mlp_forward;
use nn_kernels::rru_step;
use nn_kernels::to_usize;
use nn_kernels::ScalarOps;

struct NativeOps;

impl ScalarOps for NativeOps {
    fn fadd_spec(&self, a: u32, b: u32) -> u32 {
        self.fadd(a, b)
    }

    fn fmul_spec(&self, a: u32, b: u32) -> u32 {
        self.fmul(a, b)
    }

    fn fsub_spec(&self, a: u32, b: u32) -> u32 {
        self.fsub(a, b)
    }

    fn fdiv_spec(&self, a: u32, b: u32) -> u32 {
        self.fdiv(a, b)
    }

    fn fneg_spec(&self, x: u32) -> u32 {
        self.fneg(x)
    }

    fn fexp_spec(&self, x: u32) -> u32 {
        self.fexp(x)
    }

    fn ftanh_spec(&self, x: u32) -> u32 {
        self.ftanh(x)
    }

    fn fadd(&self, a: u32, b: u32) -> u32 {
        (f32::from_bits(a) + f32::from_bits(b)).to_bits()
    }

    fn fmul(&self, a: u32, b: u32) -> u32 {
        (f32::from_bits(a) * f32::from_bits(b)).to_bits()
    }

    fn fsub(&self, a: u32, b: u32) -> u32 {
        (f32::from_bits(a) - f32::from_bits(b)).to_bits()
    }

    fn fdiv(&self, a: u32, b: u32) -> u32 {
        (f32::from_bits(a) / f32::from_bits(b)).to_bits()
    }

    fn fneg(&self, x: u32) -> u32 {
        (-f32::from_bits(x)).to_bits()
    }

    fn fexp(&self, x: u32) -> u32 {
        f32::from_bits(x).exp().to_bits()
    }

    fn ftanh(&self, x: u32) -> u32 {
        f32::from_bits(x).tanh().to_bits()
    }
}

fn bits(values: &[f32]) -> Vec<u32> {
    values.iter().map(|v| v.to_bits()).collect()
}

fn floats(values: &[u32]) -> Vec<f32> {
    values.iter().map(|v| f32::from_bits(*v)).collect()
}

fn close(a: f32, b: f32) -> bool {
    (a - b).abs() <= 1e-5f32 * b.abs().max(1.0f32)
}

fn sigmoid(x: f32) -> f32 {
    1.0f32 / (1.0f32 + (-x).exp())
}

fn naive_dot(w: &[f32], x: &[f32]) -> f32 {
    let mut total: f32 = 0.0;
    for i in 0..w.len() {
        total += w[i] * x[i];
    }
    total
}

#[test]
fn dot_matches_naive_sum_on_remainder_edges() {
    for &n in &[0usize, 1, 3, 4, 5, 17] {
        let w: Vec<f32> = (0..n).map(|i| 0.05f32 * i as f32 - 0.3f32).collect();
        let x: Vec<f32> = (0..n).map(|i| 0.12f32 * i as f32 + 0.4f32).collect();
        let got = f32::from_bits(dot(&NativeOps, &bits(&w), 0, &bits(&x), 0, n));
        let want = naive_dot(&w, &x);
        assert!(close(got, want), "n={}: {} vs {}", n, got, want);
        if n == 0 {
            assert_eq!(got.to_bits(), 0.0f32.to_bits());
        }
    }
}

#[test]
fn dot_respects_offsets() {
    let w: Vec<f32> = vec![9.0, 9.0, 1.0, 2.0, 3.0];
    let x: Vec<f32> = vec![8.0, 4.0, 5.0, 6.0];
    let got = f32::from_bits(dot(&NativeOps, &bits(&w), 2, &bits(&x), 1, 3));
    assert!(close(got, 1.0 * 4.0 + 2.0 * 5.0 + 3.0 * 6.0));
}

#[test]
fn dot_mul_gates_the_second_factor() {
    let w: Vec<f32> = vec![2.0, 3.0];
    let a: Vec<f32> = vec![4.0, 5.0];
    let b: Vec<f32> = vec![6.0, 7.0];
    let got = f32::from_bits(dot_mul(
        &NativeOps,
        &bits(&w),
        0,
        &bits(&a),
        0,
        &bits(&b),
        0,
        2,
    ));
    assert!(close(got, 2.0 * (4.0 * 6.0) + 3.0 * (5.0 * 7.0)));
}

#[test]
fn dense_single_unit_matches_hand_computation() {
    let weights = bits(&[1.0, 2.0, 0.5]);
    let input = bits(&[3.0, 4.0]);
    let mut output = bits(&[0.0]);
    dense_forward(&NativeOps, &weights, &input, &mut output, 2, 1, 1, 2, 1);
    let got = f32::from_bits(output[0]);
    assert!(close(got, 11.5f32.tanh()), "{}", got);
}

#[test]
fn dense_padding_slots_are_exactly_zero() {
    let weights = bits(&[1.0, 2.0, 0.5]);
    let input = bits(&[3.0, 4.0]);
    let mut output = bits(&[7.0, 7.0, 7.0, 7.0]);
    dense_forward(&NativeOps, &weights, &input, &mut output, 2, 1, 1, 2, 4);
    assert!(close(f32::from_bits(output[0]), 11.5f32.tanh()));
    for o in 1..4 {
        assert_eq!(output[o], 0.0f32.to_bits(), "slot {}", o);
        assert_eq!(f32::from_bits(output[o]), 0.0f32);
    }
}

#[test]
fn dense_zero_out_size_clears_the_row() {
    let weights = bits(&[1.0, 2.0, 0.5]);
    let input = bits(&[3.0, 4.0]);
    let mut output = bits(&[7.0, 7.0, 7.0]);
    dense_forward(&NativeOps, &weights, &input, &mut output, 2, -5, 1, 2, 3);
    assert_eq!(output, bits(&[0.0, 0.0, 0.0]));
}

#[test]
fn dense_rows_beyond_batch_are_untouched() {
    let weights = bits(&[1.0, 2.0, 0.5]);
    let input = bits(&[3.0, 4.0, 1.0, 1.0]);
    let mut output = bits(&[7.0, 7.0, 7.0, 7.0]);
    dense_forward(&NativeOps, &weights, &input, &mut output, 2, 1, 1, 2, 2);
    assert_eq!(output[1], 0.0f32.to_bits());
    assert_eq!(output[2], 7.0f32.to_bits());
    assert_eq!(output[3], 7.0f32.to_bits());
}

#[test]
fn mlp_two_layers_equals_chained_dense() {
    let block1: [f32; 9] = [0.1, 0.2, 0.3, 0.4, 0.5, 0.6, 0.7, -0.8, 0.9];
    let block2: [f32; 4] = [1.5, -2.5, 0.5, 0.25];
    let mut all: Vec<f32> = block1.to_vec();
    all.extend_from_slice(&block2);
    let weights = bits(&all);
    let input = bits(&[0.5, -1.25]);
    let layer_sizes: Vec<i32> = vec![2, 3, 1];

    let mut mlp_out = bits(&[9.0]);
    let mut scratch = bits(&[0.0; 6]);
    mlp_forward(
        &NativeOps,
        &weights,
        &layer_sizes,
        &input,
        &mut mlp_out,
        3,
        1,
        2,
        1,
        &mut scratch,
        6,
    );

    let mut mid = bits(&[0.0, 0.0, 0.0]);
    dense_forward(&NativeOps, &bits(&block1), &input, &mut mid, 2, 3, 1, 2, 3);
    let mut dense_out = bits(&[0.0]);
    dense_forward(&NativeOps, &bits(&block2), &mid, &mut dense_out, 3, 1, 1, 3, 1);

    assert_eq!(mlp_out[0], dense_out[0]);
}

#[test]
fn mlp_pads_the_output_row_with_exact_zeros() {
    let block1: [f32; 9] = [0.1, 0.2, 0.3, 0.4, 0.5, 0.6, 0.7, -0.8, 0.9];
    let block2: [f32; 4] = [1.5, -2.5, 0.5, 0.25];
    let mut all: Vec<f32> = block1.to_vec();
    all.extend_from_slice(&block2);
    let weights = bits(&all);
    let input = bits(&[0.5, -1.25]);
    let layer_sizes: Vec<i32> = vec![2, 3, 1];
    let mut output = bits(&[5.0, 5.0, 5.0]);
    let mut scratch = bits(&[0.0; 6]);
    mlp_forward(
        &NativeOps,
        &weights,
        &layer_sizes,
        &input,
        &mut output,
        3,
        1,
        2,
        3,
        &mut scratch,
        6,
    );
    assert_eq!(output[1], 0.0f32.to_bits());
    assert_eq!(output[2], 0.0f32.to_bits());
}

#[test]
fn dense_output_stride_truncates_out_size() {
    let weights = bits(&[2.0, 0.0, 3.0, 0.5]);
    let input = bits(&[1.0]);
    let mut output = bits(&[9.0, 9.0]);
    dense_forward(&NativeOps, &weights, &input, &mut output, 1, 3, 1, 1, 2);
    let got = floats(&output);
    assert!(close(got[0], 2.0f32.tanh()));
    assert!(close(got[1], 3.5f32.tanh()));
}

#[test]
fn mlp_three_layers_equals_three_chained_dense_calls() {
    let block1: [f32; 4] = [0.9, -0.2, -1.1, 0.3];
    let block2: [f32; 6] = [0.5, -0.6, 0.1, 0.8, 0.7, -0.4];
    let block3: [f32; 3] = [1.25, -0.75, 0.05];
    let mut all: Vec<f32> = block1.to_vec();
    all.extend_from_slice(&block2);
    all.extend_from_slice(&block3);
    let weights = bits(&all);
    let input = bits(&[0.35]);
    let layer_sizes: Vec<i32> = vec![1, 2, 2, 1];

    let mut mlp_out = bits(&[0.0]);
    let mut scratch = bits(&[0.0; 4]);
    mlp_forward(
        &NativeOps,
        &weights,
        &layer_sizes,
        &input,
        &mut mlp_out,
        4,
        1,
        1,
        1,
        &mut scratch,
        4,
    );

    let mut mid1 = bits(&[0.0, 0.0]);
    dense_forward(&NativeOps, &bits(&block1), &input, &mut mid1, 1, 2, 1, 1, 2);
    let mut mid2 = bits(&[0.0, 0.0]);
    dense_forward(&NativeOps, &bits(&block2), &mid1, &mut mid2, 2, 2, 1, 2, 2);
    let mut dense_out = bits(&[0.0]);
    dense_forward(&NativeOps, &bits(&block3), &mid2, &mut dense_out, 2, 1, 1, 2, 1);

    assert_eq!(mlp_out[0], dense_out[0]);
}

#[test]
fn mlp_leaves_scratch_beyond_the_working_region_untouched() {
    let block1: [f32; 9] = [0.1, 0.2, 0.3, 0.4, 0.5, 0.6, 0.7, -0.8, 0.9];
    let block2: [f32; 4] = [1.5, -2.5, 0.5, 0.25];
    let mut all: Vec<f32> = block1.to_vec();
    all.extend_from_slice(&block2);
    let weights = bits(&all);
    let input = bits(&[0.5, -1.25]);
    let layer_sizes: Vec<i32> = vec![2, 3, 1];
    let mut output = bits(&[0.0]);
    let mut scratch = bits(&[0.0, 0.0, 0.0, 0.0, 0.0, 0.0, 42.0, 43.0]);
    mlp_forward(
        &NativeOps,
        &weights,
        &layer_sizes,
        &input,
        &mut output,
        3,
        1,
        2,
        1,
        &mut scratch,
        8,
    );
    assert_eq!(scratch[6], 42.0f32.to_bits());
    assert_eq!(scratch[7], 43.0f32.to_bits());
}

#[test]
fn mlp_zero_max_width_is_a_no_op() {
    let weights = bits(&[1.0]);
    let input = bits(&[1.0]);
    let layer_sizes: Vec<i32> = vec![0, -3];
    let mut output = bits(&[5.0]);
    let mut scratch = bits(&[1.0, 2.0]);
    mlp_forward(
        &NativeOps,
        &weights,
        &layer_sizes,
        &input,
        &mut output,
        2,
        1,
        1,
        1,
        &mut scratch,
        2,
    );
    assert_eq!(output, bits(&[5.0]));
    assert_eq!(scratch, bits(&[1.0, 2.0]));
}

#[test]
fn mlp_short_layer_count_is_a_no_op() {
    let weights = bits(&[1.0, 2.0, 0.5]);
    let input = bits(&[3.0, 4.0]);
    let layer_sizes: Vec<i32> = vec![2];
    let mut output = bits(&[5.0, 6.0]);
    let mut scratch = bits(&[1.0, 2.0, 3.0, 4.0]);
    mlp_forward(
        &NativeOps,
        &weights,
        &layer_sizes,
        &input,
        &mut output,
        1,
        1,
        2,
        2,
        &mut scratch,
        4,
    );
    assert_eq!(output, bits(&[5.0, 6.0]));
    assert_eq!(scratch, bits(&[1.0, 2.0, 3.0, 4.0]));
}

#[test]
fn mlp_scratch_one_element_short_is_a_no_op() {
    let block1: [f32; 9] = [0.1, 0.2, 0.3, 0.4, 0.5, 0.6, 0.7, -0.8, 0.9];
    let block2: [f32; 4] = [1.5, -2.5, 0.5, 0.25];
    let mut all: Vec<f32> = block1.to_vec();
    all.extend_from_slice(&block2);
    let weights = bits(&all);
    let input = bits(&[0.5, -1.25]);
    let layer_sizes: Vec<i32> = vec![2, 3, 1];
    let mut output = bits(&[5.0]);
    let mut scratch = bits(&[0.0; 5]);
    mlp_forward(
        &NativeOps,
        &weights,
        &layer_sizes,
        &input,
        &mut output,
        3,
        1,
        2,
        1,
        &mut scratch,
        5,
    );
    assert_eq!(output, bits(&[5.0]));
    assert_eq!(scratch, bits(&[0.0; 5]));
}

#[test]
fn gru_scalar_recurrence_matches_the_equations() {
    let wz = 0.3f32;
    let wr = -0.4f32;
    let wh = 0.8f32;
    let uz = 0.5f32;
    let ur = 0.7f32;
    let uh = -0.6f32;
    let bz = 0.1f32;
    let br = 0.2f32;
    let bh = -0.3f32;
    let x = 0.9f32;
    let h0 = 0.4f32;
    let weights = bits(&[wz, wr, wh, uz, ur, uh, bz, br, bh]);
    let input = bits(&[x]);
    let mut h = bits(&[h0]);
    let mut z = bits(&[0.0]);
    let mut r = bits(&[0.0]);
    let mut h_prev = bits(&[0.0]);
    gru_step(
        &NativeOps,
        &weights,
        &input,
        &mut h,
        &mut z,
        &mut r,
        &mut h_prev,
        1,
        1,
        1,
        1,
    );
    let z_want = sigmoid(wz * x + uz * h0 + bz);
    let r_want = sigmoid(wr * x + ur * h0 + br);
    let h_tilde = (wh * x + uh * (r_want * h0) + bh).tanh();
    let h_want = (1.0f32 - z_want) * h0 + z_want * h_tilde;
    assert!(close(f32::from_bits(z[0]), z_want));
    assert!(close(f32::from_bits(r[0]), r_want));
    assert!(close(f32::from_bits(h[0]), h_want));
    assert_eq!(h_prev[0], h0.to_bits());
}

#[test]
fn lstm_scalar_recurrence_matches_the_equations() {
    let wi = 0.3f32;
    let wf = -0.2f32;
    let wo = 0.5f32;
    let wg = 0.9f32;
    let ui = 0.4f32;
    let uf = 0.6f32;
    let uo = -0.7f32;
    let ug = 0.1f32;
    let bi = 0.05f32;
    let bf = -0.1f32;
    let bo = 0.15f32;
    let bg = 0.2f32;
    let x = -0.8f32;
    let h0 = 0.3f32;
    let c0 = -0.5f32;
    let weights = bits(&[wi, wf, wo, wg, ui, uf, uo, ug, bi, bf, bo, bg]);
    let input = bits(&[x]);
    let mut h = bits(&[h0]);
    let mut c = bits(&[c0]);
    let mut h_prev = bits(&[0.0]);
    let mut c_prev = bits(&[0.0]);
    lstm_step(
        &NativeOps,
        &weights,
        &input,
        &mut h,
        &mut c,
        &mut h_prev,
        &mut c_prev,
        1,
        1,
        1,
        1,
    );
    let i_gate = sigmoid(wi * x + ui * h0 + bi);
    let f_gate = sigmoid(wf * x + uf * h0 + bf);
    let o_gate = sigmoid(wo * x + uo * h0 + bo);
    let g_gate = (wg * x + ug * h0 + bg).tanh();
    let c_want = f_gate * c0 + i_gate * g_gate;
    let h_want = o_gate * c_want.tanh();
    assert!(close(f32::from_bits(c[0]), c_want));
    assert!(close(f32::from_bits(h[0]), h_want));
    assert_eq!(h_prev[0], h0.to_bits());
    assert_eq!(c_prev[0], c0.to_bits());
}

#[test]
fn rru_scalar_recurrence_matches_the_equations() {
    let wc = 0.7f32;
    let wr = -0.3f32;
    let uc = 0.2f32;
    let ur = 0.9f32;
    let bc = -0.1f32;
    let br = 0.4f32;
    let x = 0.6f32;
    let h0 = -0.2f32;
    let weights = bits(&[wc, wr, uc, ur, bc, br]);
    let input = bits(&[x]);
    let mut h = bits(&[h0]);
    let mut h_prev = bits(&[0.0]);
    rru_step(
        &NativeOps,
        &weights,
        &input,
        &mut h,
        &mut h_prev,
        1,
        1,
        1,
        1,
    );
    let cand = (wc * x + uc * h0 + bc).tanh();
    let gate = sigmoid(wr * x + ur * h0 + br);
    let h_want = (1.0f32 - gate) * h0 + gate * cand;
    assert!(close(f32::from_bits(h[0]), h_want));
    assert_eq!(h_prev[0], h0.to_bits());
}

#[test]
fn gru_weight_blob_sections_land_on_the_right_units() {
    // hidden_size = 2, in_size = 1: sections are W_z[0,2) W_r[2,4) W_h[4,6)
    // U_z[6,10) U_r[10,14) U_h[14,18) b_z[18,20) b_r[20,22) b_h[22,24).
    let mut w: Vec<f32> = vec![0.0; 24];
    w[0] = 0.0;
    w[1] = 5.0;
    w[4] = 1.0;
    w[5] = -1.0;
    w[18] = 0.25;
    w[19] = -0.5;
    w[22] = 0.5;
    w[23] = 0.125;
    let weights = bits(&w);
    let input = bits(&[1.0]);
    let h0 = [0.3f32, -0.7f32];
    let mut h = bits(&h0);
    let mut z = bits(&[0.0, 0.0]);
    let mut r = bits(&[0.0, 0.0]);
    let mut h_prev = bits(&[0.0, 0.0]);
    gru_step(
        &NativeOps,
        &weights,
        &input,
        &mut h,
        &mut z,
        &mut r,
        &mut h_prev,
        1,
        2,
        1,
        1,
    );
    let z_want = [sigmoid(0.0 + 0.25), sigmoid(5.0 - 0.5)];
    let t_want = [(1.0f32 + 0.5).tanh(), (-1.0f32 + 0.125).tanh()];
    for j in 0..2 {
        assert!(close(f32::from_bits(z[j]), z_want[j]), "z[{}]", j);
        assert!(close(f32::from_bits(r[j]), 0.5), "r[{}]", j);
        let h_want = (1.0 - z_want[j]) * h0[j] + z_want[j] * t_want[j];
        assert!(close(f32::from_bits(h[j]), h_want), "h[{}]", j);
        assert_eq!(h_prev[j], h0[j].to_bits());
    }
}

#[test]
fn gru_snapshots_the_whole_previous_state() {
    let hs = 2usize;
    let weights = bits(&vec![0.1f32; 3 * 2 * 1 + 3 * 2 * 2 + 3 * 2]);
    let input = bits(&[0.5, -0.5]);
    let h0: Vec<f32> = vec![0.25, -0.75, 0.5, 1.5];
    let mut h = bits(&h0);
    let mut z = bits(&vec![0.0; 4]);
    let mut r = bits(&vec![0.0; 4]);
    let mut h_prev = bits(&vec![9.0; 4]);
    gru_step(
        &NativeOps,
        &weights,
        &input,
        &mut h,
        &mut z,
        &mut r,
        &mut h_prev,
        1,
        hs as i32,
        2,
        1,
    );
    assert_eq!(floats(&h_prev), h0);
}

#[test]
fn zero_or_negative_dimensions_make_recurrent_steps_no_ops() {
    let weights = bits(&[0.1; 9]);
    let input = bits(&[0.5]);
    let h0 = bits(&[0.25]);
    let scratch0 = bits(&[3.0]);
    for &(isz, hsz, bcn) in &[(0, 1, 1), (1, 0, 1), (1, 1, 0), (-4, 1, 1), (1, 1, -2)] {
        let mut h = h0.clone();
        let mut z = scratch0.clone();
        let mut r = scratch0.clone();
        let mut h_prev = scratch0.clone();
        gru_step(
            &NativeOps,
            &weights,
            &input,
            &mut h,
            &mut z,
            &mut r,
            &mut h_prev,
            isz,
            hsz,
            bcn,
            1,
        );
        assert_eq!(h, h0);
        assert_eq!(z, scratch0);
        assert_eq!(r, scratch0);
        assert_eq!(h_prev, scratch0);

        let mut h = h0.clone();
        let mut c = h0.clone();
        let mut h_prev = scratch0.clone();
        let mut c_prev = scratch0.clone();
        lstm_step(
            &NativeOps,
            &weights,
            &input,
            &mut h,
            &mut c,
            &mut h_prev,
            &mut c_prev,
            isz,
            hsz,
            bcn,
            1,
        );
        assert_eq!(h, h0);
        assert_eq!(c, h0);
        assert_eq!(h_prev, scratch0);
        assert_eq!(c_prev, scratch0);

        let mut h = h0.clone();
        let mut h_prev = scratch0.clone();
        rru_step(
            &NativeOps, &weights, &input, &mut h, &mut h_prev, isz, hsz, bcn, 1,
        );
        assert_eq!(h, h0);
        assert_eq!(h_prev, scratch0);
    }
}

#[test]
fn kernels_are_idempotent_over_fresh_buffers() {
    let weights = bits(&[1.0, 2.0, 0.5, -0.25, 0.75, 0.125]);
    let input = bits(&[3.0, 4.0, -1.0, 2.0]);
    let mut out_a = bits(&[0.0; 4]);
    let mut out_b = bits(&[0.0; 4]);
    dense_forward(&NativeOps, &weights, &input, &mut out_a, 2, 2, 2, 2, 2);
    dense_forward(&NativeOps, &weights, &input, &mut out_b, 2, 2, 2, 2, 2);
    assert_eq!(out_a, out_b);

    let gru_w = bits(&[0.3, -0.4, 0.8, 0.5, 0.7, -0.6, 0.1, 0.2, -0.3]);
    let x = bits(&[0.9]);
    let mut h_a = bits(&[0.4]);
    let mut h_b = bits(&[0.4]);
    let mut z = bits(&[0.0]);
    let mut r = bits(&[0.0]);
    let mut h_prev = bits(&[0.0]);
    gru_step(
        &NativeOps, &gru_w, &x, &mut h_a, &mut z, &mut r, &mut h_prev, 1, 1, 1, 1,
    );
    let mut z2 = bits(&[0.0]);
    let mut r2 = bits(&[0.0]);
    let mut h_prev2 = bits(&[0.0]);
    gru_step(
        &NativeOps, &gru_w, &x, &mut h_b, &mut z2, &mut r2, &mut h_prev2, 1, 1, 1, 1,
    );
    assert_ne!(h_a, bits(&[0.4]));
    assert_eq!(h_b, h_a);
    assert_eq!(z2, z);
    assert_eq!(r2, r);
    assert_eq!(h_prev2, h_prev);
}

#[test]
fn to_usize_clamps_negative_sizes_to_zero() {
    assert_eq!(to_usize(-5), 0);
    assert_eq!(to_usize(-1), 0);
    assert_eq!(to_usize(0), 0);
    assert_eq!(to_usize(7), 7);
    assert_eq!(to_usize(2147483647), 2147483647);
}

#[test]
fn dense_batch_rows_follow_the_strides() {
    let weights = bits(&[1.0, 0.0, 0.0, 0.0, 1.0, 0.0]);
    let input = bits(&[0.1, 0.2, 9.0, 0.3, 0.4, 9.0]);
    let mut output = bits(&[0.0; 6]);
    dense_forward(&NativeOps, &weights, &input, &mut output, 2, 2, 2, 3, 3);
    let got = floats(&output);
    assert!(close(got[0], 0.1f32.tanh()));
    assert!(close(got[1], 0.2f32.tanh()));
    assert_eq!(got[2], 0.0);
    assert!(close(got[3], 0.3f32.tanh()));
    assert!(close(got[4], 0.4f32.tanh()));
    assert_eq!(got[5], 0.0);
}
