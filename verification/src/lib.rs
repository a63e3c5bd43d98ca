//! Forward-pass inference kernels for a handful of neural-network layer
//! types over flat, caller-owned buffers.
//!
//! Every buffer element is the bit pattern of an IEEE 754 single-precision
//! value, carried as a `u32`. The kernels themselves never compute on the
//! numeric values: all scalar arithmetic is delegated to a host-supplied
//! [`ScalarOps`](scalar::ScalarOps) implementation. What the kernels do own
//! — and what their contracts pin down exactly — is the weight-blob layout,
//! batch striding, output padding, state snapshotting, and the silent no-op
//! guards on malformed shape metadata.

use vstd::prelude::*;

pub mod buffer;
pub mod dense;
pub mod gru;
pub mod lstm;
pub mod mlp;
pub mod reduce;
pub mod rru;
pub mod scalar;
pub mod sizes;

verus! {

pub use dense::dense_forward;
pub use gru::gru_step;
pub use lstm::lstm_step;
pub use mlp::mlp_forward;
pub use reduce::dot;
pub use reduce::dot_mul;
pub use rru::rru_step;
pub use scalar::sigmoid;
pub use scalar::ScalarOps;
pub use sizes::to_usize;

} // verus!
