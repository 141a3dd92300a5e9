//! How the interpreter sees numbers.
//!
//! A number is a 64-bit floating point value, held as its bit pattern in a
//! `u64`. The interpreter moves such patterns around and never computes on
//! them. Three host functions do that work:
//!
//! * one reads the text of a numeric literal,
//! * one applies a binary operator to two numbers,
//! * one formats a number for `print`.
//!
//! A [`NumberModel`] is the mathematical counterpart of such a triple. The
//! contracts of the lexer and of the evaluator hold for every model that
//! describes the functions they were given.
use vstd::prelude::*;
use crate::ast::BinaryOp;

verus! {

/// The bit pattern of positive zero.
pub const ZERO: u64 = 0;

/// Three functions on bit patterns that stand for the host's arithmetic.
pub ghost struct NumberModel {
    /// The number a literal's text denotes, or `None` if it denotes none.
    pub read: spec_fn(Seq<char>) -> Option<u64>,
    /// The result of a binary operator on two numbers.
    pub apply: spec_fn(BinaryOp, u64, u64) -> u64,
    /// The text that `print` shows for a number.
    pub show: spec_fn(u64) -> Seq<char>,
}

impl NumberModel {
    /// Whatever `number_of` returns for a text is what the model reads.
    pub open spec fn reads<P: Fn(&str) -> Option<u64>>(self, number_of: &P) -> bool {
        forall|text: &str, r: Option<u64>| #[trigger]
            number_of.ensures((text,), r) ==> r == (self.read)(text@)
    }

    /// Whatever `arith` returns for an operator and two numbers is what the
    /// model computes.
    pub open spec fn computes<A: Fn(BinaryOp, u64, u64) -> u64>(self, arith: &A) -> bool {
        forall|op: BinaryOp, a: u64, b: u64, r: u64| #[trigger]
            arith.ensures((op, a, b), r) ==> r == (self.apply)(op, a, b)
    }

    /// Whatever `show` returns for a number is what the model shows.
    pub open spec fn shows<S: Fn(u64) -> String>(self, show: &S) -> bool {
        forall|n: u64, r: String| #[trigger] show.ensures((n,), r) ==> r@ == (self.show)(n)
    }
}

/// `number_of` may be called on every text.
pub open spec fn reads_any<P: Fn(&str) -> Option<u64>>(number_of: &P) -> bool {
    forall|text: &str| number_of.requires((text,))
}

/// `arith` may be called on every operator and pair of numbers.
pub open spec fn computes_any<A: Fn(BinaryOp, u64, u64) -> u64>(arith: &A) -> bool {
    forall|op: BinaryOp, a: u64, b: u64| arith.requires((op, a, b))
}

/// `show` may be called on every number.
pub open spec fn shows_any<S: Fn(u64) -> String>(show: &S) -> bool {
    forall|n: u64| show.requires((n,))
}

} // verus!
