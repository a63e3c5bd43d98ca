//! The scalar arithmetic that the kernels delegate to the host.
//!
//! Buffer elements are bit patterns of IEEE 754 single-precision values,
//! carried as `u32`. This crate never interprets those bits numerically: the
//! host supplies an implementation of [`ScalarOps`] that performs the actual
//! arithmetic (ordinarily the platform's native single-precision
//! operations). Each operation carries an abstract per-implementation spec
//! function, and the method's contract ties the result to that name; every
//! kernel contract downstream is stated over those names, so each value a
//! kernel writes is pinned to the exact expression of host operations the
//! kernel owes — without assuming anything about what the operations
//! numerically do.

use vstd::prelude::*;

verus! {

/// Bit pattern of the single-precision value one, used by the sigmoid and
/// the convex gate blends of the recurrent cells.
pub const ONE_BITS: u32 = 0x3F80_0000;

/// Bit pattern of the single-precision value positive zero, used to seed
/// the reduction accumulator lanes.
pub const ZERO_BITS: u32 = 0x0000_0000;

/// Host-supplied scalar arithmetic on bit patterns of IEEE 754
/// single-precision values.
///
/// Each method takes and returns bit patterns. An implementation is
/// expected to reinterpret them as single-precision values, apply the named
/// operation, and hand back the result's bit pattern. Each operation's
/// result is named by the matching spec function: the contracts promise
/// that an operation is a function of its implementation and operands, and
/// nothing about the value itself.
pub trait ScalarOps {
    /// Names the result of [`Self::fadd`].
    spec fn fadd_spec(&self, a: u32, b: u32) -> u32;

    /// Names the result of [`Self::fmul`].
    spec fn fmul_spec(&self, a: u32, b: u32) -> u32;

    /// Names the result of [`Self::fsub`].
    spec fn fsub_spec(&self, a: u32, b: u32) -> u32;

    /// Names the result of [`Self::fdiv`].
    spec fn fdiv_spec(&self, a: u32, b: u32) -> u32;

    /// Names the result of [`Self::fneg`].
    spec fn fneg_spec(&self, x: u32) -> u32;

    /// Names the result of [`Self::fexp`].
    spec fn fexp_spec(&self, x: u32) -> u32;

    /// Names the result of [`Self::ftanh`].
    spec fn ftanh_spec(&self, x: u32) -> u32;

    /// The sum of the two operands.
    fn fadd(&self, a: u32, b: u32) -> (r: u32)
        ensures
            r == self.fadd_spec(a, b),
    ;

    /// The product of the two operands.
    fn fmul(&self, a: u32, b: u32) -> (r: u32)
        ensures
            r == self.fmul_spec(a, b),
    ;

    /// The difference of the two operands.
    fn fsub(&self, a: u32, b: u32) -> (r: u32)
        ensures
            r == self.fsub_spec(a, b),
    ;

    /// The quotient of the two operands.
    fn fdiv(&self, a: u32, b: u32) -> (r: u32)
        ensures
            r == self.fdiv_spec(a, b),
    ;

    /// The negation of the operand.
    fn fneg(&self, x: u32) -> (r: u32)
        ensures
            r == self.fneg_spec(x),
    ;

    /// The exponential of the operand.
    fn fexp(&self, x: u32) -> (r: u32)
        ensures
            r == self.fexp_spec(x),
    ;

    /// The hyperbolic tangent of the operand.
    fn ftanh(&self, x: u32) -> (r: u32)
        ensures
            r == self.ftanh_spec(x),
    ;
}

/// The logistic sigmoid activation, as the host computes it: one over one
/// plus the exponential of the negated operand, in exactly that order.
pub open spec fn sigmoid_spec<S: ScalarOps>(ops: &S, x: u32) -> u32 {
    ops.fdiv_spec(ONE_BITS, ops.fadd_spec(ONE_BITS, ops.fexp_spec(ops.fneg_spec(x))))
}

/// The logistic sigmoid activation, composed from the host's primitives.
pub fn sigmoid<S: ScalarOps>(ops: &S, x: u32) -> (r: u32)
    ensures
        r == sigmoid_spec(ops, x),
{
    ops.fdiv(ONE_BITS, ops.fadd(ONE_BITS, ops.fexp(ops.fneg(x))))
}

} // verus!
