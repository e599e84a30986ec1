//! The operators of the language on runtime values.

use crate::node::{AstKind, NodeType};
use crate::text::owned;

use vstd::prelude::*;

verus! {

/// Why an evaluation stopped.
#[derive(Debug)]
pub enum EvalError {
    /// A name that nothing declares.
    Resolution(String),
    /// An operator or a call on values that it does not take.
    Type(String),
    /// A division by zero, or a result outside 64 bits.
    Arithmetic(String),
    /// The budget of steps is used up.
    Exhausted,
    /// An instance is to be created and no id waits for it.
    OutOfIds,
    /// A tree that no parse produces, or a stack without a call.
    Internal(String),
}

impl EvalError {
    /// The message of the error.
    pub fn message(&self) -> (out: String)
        ensures
            match self {
                EvalError::Resolution(m) => out@ == m@,
                EvalError::Type(m) => out@ == m@,
                EvalError::Arithmetic(m) => out@ == m@,
                EvalError::Exhausted => out@ == "The evaluation took too many steps."@,
                EvalError::OutOfIds => out@ == "No id is left for a new instance."@,
                EvalError::Internal(m) => out@ == m@,
            },
    {
        match self {
            EvalError::Resolution(m) => m.clone(),
            EvalError::Type(m) => m.clone(),
            EvalError::Arithmetic(m) => m.clone(),
            EvalError::Exhausted => owned("The evaluation took too many steps."),
            EvalError::OutOfIds => owned("No id is left for a new instance."),
            EvalError::Internal(m) => m.clone(),
        }
    }
}

/// The absolute value.
pub open spec fn magnitude(a: int) -> int {
    if a < 0 {
        -a
    } else {
        a
    }
}

/// The quotient, rounded toward zero.
pub open spec fn quotient(a: int, b: int) -> int
    recommends
        b != 0,
{
    if (a < 0) == (b < 0) {
        magnitude(a) / magnitude(b)
    } else {
        -(magnitude(a) / magnitude(b))
    }
}

/// The result of an arithmetic operator on integers: none where the
/// divisor is zero, or where the result does not fit into 64 bits.
pub open spec fn int_result(kind: AstKind, a: int, b: int) -> Option<int> {
    let r = match kind {
        AstKind::Add => Some(a + b),
        AstKind::Sub => Some(a - b),
        AstKind::Mul => Some(a * b),
        AstKind::Div => if b == 0 {
            None
        } else {
            Some(quotient(a, b))
        },
        _ => None,
    };
    match r {
        Some(v) => if i64::MIN <= v <= i64::MAX {
            Some(v)
        } else {
            None
        },
        None => None,
    }
}

/// The magnitude of a 64-bit integer.
fn magnitude_of(a: i64) -> (m: u64)
    ensures
        m == magnitude(a as int),
{
    if a < 0 {
        (-(a as i128)) as u64
    } else {
        a as u64
    }
}

/// Applies `+`, `-`, `*` or `/` to two integers.
pub fn int_arith(op: &NodeType, a: i64, b: i64) -> (out: Result<i64, EvalError>)
    ensures
        match int_result(op@, a as int, b as int) {
            Some(v) => out matches Ok(r) && r == v,
            None => out is Err,
        },
        op@ is Add || op@ is Sub || op@ is Mul || op@ is Div ==> out is Ok || out->Err_0 is Arithmetic,
{
    match op {
        NodeType::Add => {
            let r = a as i128 + b as i128;
            if r < i64::MIN as i128 || r > i64::MAX as i128 {
                Err(EvalError::Arithmetic(owned("Integer overflow in '+'.")))
            } else {
                Ok(r as i64)
            }
        },
        NodeType::Sub => {
            let r = a as i128 - b as i128;
            if r < i64::MIN as i128 || r > i64::MAX as i128 {
                Err(EvalError::Arithmetic(owned("Integer overflow in '-'.")))
            } else {
                Ok(r as i64)
            }
        },
        NodeType::Mul => {
            assert(-0x8000_0000_0000_0000 * 0x8000_0000_0000_0000 <= (a as int) * (b as int)
                <= 0x8000_0000_0000_0000 * 0x8000_0000_0000_0000) by (nonlinear_arith)
                requires
                    -0x8000_0000_0000_0000 <= a as int <= 0x7fff_ffff_ffff_ffff,
                    -0x8000_0000_0000_0000 <= b as int <= 0x7fff_ffff_ffff_ffff,
            ;
            let r = a as i128 * b as i128;
            if r < i64::MIN as i128 || r > i64::MAX as i128 {
                Err(EvalError::Arithmetic(owned("Integer overflow in '*'.")))
            } else {
                Ok(r as i64)
            }
        },
        NodeType::Div => {
            if b == 0 {
                return Err(EvalError::Arithmetic(owned("Integer division by zero.")));
            }
            let q = magnitude_of(a) / magnitude_of(b);
            if (a < 0) == (b < 0) {
                if q > i64::MAX as u64 {
                    Err(EvalError::Arithmetic(owned("Integer overflow in '/'.")))
                } else {
                    Ok(q as i64)
                }
            } else {
                assert(q <= 0x8000_0000_0000_0000);
                Ok((-(q as i128)) as i64)
            }
        },
        _ => Err(EvalError::Type(owned("Not an arithmetic operator."))),
    }
}

/// The negative of an integer, where it fits into 64 bits.
pub fn int_negate(a: i64) -> (out: Result<i64, EvalError>)
    ensures
        a > i64::MIN ==> (out matches Ok(r) && r == -a),
        a == i64::MIN ==> out is Err && out->Err_0 is Arithmetic,
{
    if a == i64::MIN {
        Err(EvalError::Arithmetic(owned("Integer overflow in '-'.")))
    } else {
        Ok(-a)
    }
}

} // verus!
