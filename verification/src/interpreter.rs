use vstd::prelude::*;

use crate::error::{InterpreterError, InterpreterErrorKind};
use crate::parser::{Ast, AstKind, BinOp, UniOp};
use crate::parser::{BinOpKind, UniOpKind};
use crate::utils::Annot;
use vstd::wrapping::i64_specs;

verus! {

/// A `u64` literal widened into signed 64-bit arithmetic: two's complement,
/// so magnitudes above `i64::MAX` wrap around.
pub open spec fn widen_u64(n: u64) -> i64 {
    i64_specs::wrapping_add_unsigned(0, n)
}

/// The value of a unary operation; negation wraps on `i64::MIN`.
pub open spec fn spec_eval_uniop(op: UniOp, n: i64) -> i64 {
    match op.value {
        UniOpKind::Plus => n,
        UniOpKind::Minus => i64_specs::wrapping_sub(0, n),
    }
}

/// The value of a binary operation. Addition, subtraction and multiplication
/// wrap; division truncates toward zero, wraps on `i64::MIN / -1`, and fails
/// on a zero divisor — the evaluator's one failure mode.
pub open spec fn spec_eval_binop_kind(k: BinOpKind, l: i64, r: i64) -> Result<
    i64,
    InterpreterErrorKind,
> {
    match k {
        BinOpKind::Add => Ok(i64_specs::wrapping_add(l, r)),
        BinOpKind::Sub => Ok(i64_specs::wrapping_sub(l, r)),
        BinOpKind::Mult => Ok(i64_specs::wrapping_mul(l, r)),
        BinOpKind::Div => if r == 0 {
            Err(InterpreterErrorKind::DivisionByZero)
        } else {
            Ok(
                match l.checked_div(r) {
                    Some(v) => v,
                    None => i64::MIN,
                },
            )
        },
    }
}

/// The value of an annotated binary operation.
pub open spec fn spec_eval_binop(op: BinOp, l: i64, r: i64) -> Result<i64, InterpreterErrorKind> {
    spec_eval_binop_kind(op.value, l, r)
}

/// The value of a whole tree: children first, left to right, then the node's
/// operator. A zero divisor fails with the span of the whole division node.
pub open spec fn spec_eval(a: Ast) -> Result<i64, InterpreterError>
    decreases a,
{
    match a.value {
        AstKind::Num(n) => Ok(widen_u64(n)),
        AstKind::UniOp { op, e } => match spec_eval(*e) {
            Ok(v) => Ok(spec_eval_uniop(op, v)),
            Err(er) => Err(er),
        },
        AstKind::BinOp { op, l, r } => match spec_eval(*l) {
            Ok(lv) => match spec_eval(*r) {
                Ok(rv) => match spec_eval_binop(op, lv, rv) {
                    Ok(v) => Ok(v),
                    Err(k) => Err(Annot { value: k, loc: a.loc }),
                },
                Err(er) => Err(er),
            },
            Err(er) => Err(er),
        },
    }
}

/// Evaluates syntax trees to signed 64-bit integers; carries no state.
pub struct Interpreter;

impl Interpreter {
    pub fn new() -> Self {
        Interpreter
    }

    /// Evaluates `expr` post-order. Overflow in addition, subtraction,
    /// multiplication and negation wraps; the only failure is a division
    /// whose right operand evaluates to zero.
    pub fn eval(&mut self, expr: &Ast) -> (r: Result<i64, InterpreterError>)
        ensures
            r == spec_eval(*expr),
        decreases *expr,
    {
        match &expr.value {
            AstKind::Num(n) => Ok(0i64.wrapping_add_unsigned(*n)),
            AstKind::UniOp { op, e } => {
                let v = self.eval(&**e)?;
                Ok(self.eval_uniop(op, v))
            },
            AstKind::BinOp { op, l, r } => {
                let lv = self.eval(&**l)?;
                let rv = self.eval(&**r)?;
                match self.eval_binop(op, lv, rv) {
                    Ok(v) => Ok(v),
                    Err(k) => Err(InterpreterError::new(k, expr.loc)),
                }
            },
        }
    }

    fn eval_uniop(&mut self, op: &UniOp, n: i64) -> (r: i64)
        ensures
            r == spec_eval_uniop(*op, n),
    {
        match op.value {
            UniOpKind::Plus => n,
            UniOpKind::Minus => 0i64.wrapping_sub(n),
        }
    }

    fn eval_binop(&mut self, op: &BinOp, l: i64, r: i64) -> (res: Result<
        i64,
        InterpreterErrorKind,
    >)
        ensures
            res == spec_eval_binop(*op, l, r),
    {
        match op.value {
            BinOpKind::Add => Ok(l.wrapping_add(r)),
            BinOpKind::Sub => Ok(l.wrapping_sub(r)),
            BinOpKind::Mult => Ok(l.wrapping_mul(r)),
            BinOpKind::Div => {
                if r == 0 {
                    Err(InterpreterErrorKind::DivisionByZero)
                } else {
                    match l.checked_div(r) {
                        Some(v) => Ok(v),
                        None => Ok(i64::MIN),
                    }
                }
            },
        }
    }
}

} // verus!
