use vstd::prelude::*;
use crate::error::VmError;

verus! {

/// The binary numeric operations.
#[derive(Debug, Clone, Copy, PartialEq, Eq, Structural)]
pub enum ArithOp {
    Add,
    Sub,
    Mul,
    Div,
    Mod,
    Exp,
}

/// `b` to the power `e`.
pub open spec fn power(b: int, e: nat) -> int
    decreases e,
{
    if e == 0 {
        1
    } else {
        b * power(b, (e - 1) as nat)
    }
}

pub open spec fn fits_i64(x: int) -> bool {
    i64::MIN <= x <= i64::MAX
}

/// The integer operation on two integers: Div truncates toward zero and Mod
/// takes the sign of the dividend, as Rust's `/` and `%` do. An exponent must
/// fit in 32-bit unsigned, and every result must fit in 64-bit signed.
pub open spec fn int_binop(op: ArithOp, a: i64, b: i64) -> Result<i64, VmError> {
    match op {
        ArithOp::Add => if fits_i64(a + b) { Ok((a + b) as i64) } else { Err(VmError::IntegerOverflow) },
        ArithOp::Sub => if fits_i64(a - b) { Ok((a - b) as i64) } else { Err(VmError::IntegerOverflow) },
        ArithOp::Mul => if fits_i64(a * b) { Ok((a * b) as i64) } else { Err(VmError::IntegerOverflow) },
        ArithOp::Div => if b == 0 {
            Err(VmError::DivisionByZero)
        } else {
            match a.checked_div(b) {
                Some(q) => Ok(q),
                None => Err(VmError::IntegerOverflow),
            }
        },
        ArithOp::Mod => if b == 0 {
            Err(VmError::DivisionByZero)
        } else {
            match a.checked_rem(b) {
                Some(q) => Ok(q),
                None => Err(VmError::IntegerOverflow),
            }
        },
        ArithOp::Exp => if b < 0 || b > u32::MAX {
            Err(VmError::IntegerOverflow)
        } else if fits_i64(power(a as int, b as nat)) {
            Ok(power(a as int, b as nat) as i64)
        } else {
            Err(VmError::IntegerOverflow)
        },
    }
}

proof fn lemma_power_unit(b: int, e: nat)
    requires
        b == 0 || b == 1 || b == -1,
    ensures
        b == 1 ==> power(b, e) == 1,
        b == 0 ==> power(b, e) == (if e == 0 { 1int } else { 0int }),
        b == -1 ==> power(b, e) == (if e % 2 == 0 { 1int } else { -1int }),
    decreases e,
{
    if e > 0 {
        lemma_power_unit(b, (e - 1) as nat);
    }
}

/// For a base of size at least 2, the size of its powers never shrinks.
proof fn lemma_power_grows(b: int, i: nat, e: nat)
    requires
        b <= -2 || b >= 2,
        i <= e,
    ensures
        abs(power(b, i)) <= abs(power(b, e)),
    decreases e - i,
{
    if i < e {
        lemma_power_grows(b, i, (e - 1) as nat);
        let p = power(b, (e - 1) as nat);
        assert(abs(b * p) >= abs(p)) by (nonlinear_arith)
            requires
                b <= -2 || b >= 2,
        ;
    }
}

pub open spec fn abs(x: int) -> int {
    if x < 0 { -x } else { x }
}

/// `a` to the power `e`, or `None` when the result does not fit in 64-bit signed.
pub fn checked_power(a: i64, e: u32) -> (r: Option<i64>)
    ensures
        r == (if fits_i64(power(a as int, e as nat)) {
            Some(power(a as int, e as nat) as i64)
        } else {
            None::<i64>
        }),
{
    if a == 0 || a == 1 || a == -1 {
        proof {
            lemma_power_unit(a as int, e as nat);
        }
        if a == 1 {
            return Some(1);
        } else if a == 0 {
            return if e == 0 { Some(1) } else { Some(0) };
        } else {
            return if e % 2 == 0 { Some(1) } else { Some(-1) };
        }
    }
    let mut acc: i64 = 1;
    let mut i: u32 = 0;
    while i < e
        invariant
            a <= -2 || a >= 2,
            i <= e,
            acc as int == power(a as int, i as nat),
        decreases e - i,
    {
        match acc.checked_mul(a) {
            Some(next) => {
                proof {
                    assert(power(a as int, (i + 1) as nat) == a * power(a as int, i as nat));
                    assert(next as int == a * acc) by (nonlinear_arith)
                        requires
                            next as int == acc * a,
                    ;
                }
                acc = next;
                i = i + 1;
            },
            None => {
                proof {
                    let x = power(a as int, (i + 1) as nat);
                    assert(x == a * power(a as int, i as nat));
                    assert(x == acc * a) by (nonlinear_arith)
                        requires
                            x == a * (acc as int),
                    ;
                    assert(!fits_i64(x));
                    if e > i + 1 {
                        let y = power(a as int, (i + 2) as nat);
                        assert(y == a * x);
                        assert(abs(y) >= 2 * abs(x)) by (nonlinear_arith)
                            requires
                                y == a * x,
                                a <= -2 || a >= 2,
                        ;
                        lemma_power_grows(a as int, (i + 2) as nat, e as nat);
                    }
                }
                return None;
            },
        }
    }
    Some(acc)
}

/// The integer operation, computed.
pub fn int_binop_exec(op: ArithOp, a: i64, b: i64) -> (r: Result<i64, VmError>)
    ensures
        r == int_binop(op, a, b),
{
    match op {
        ArithOp::Add => match a.checked_add(b) {
            Some(v) => Ok(v),
            None => Err(VmError::IntegerOverflow),
        },
        ArithOp::Sub => match a.checked_sub(b) {
            Some(v) => Ok(v),
            None => Err(VmError::IntegerOverflow),
        },
        ArithOp::Mul => match a.checked_mul(b) {
            Some(v) => Ok(v),
            None => Err(VmError::IntegerOverflow),
        },
        ArithOp::Div => if b == 0 {
            Err(VmError::DivisionByZero)
        } else {
            match a.checked_div(b) {
                Some(q) => Ok(q),
                None => Err(VmError::IntegerOverflow),
            }
        },
        ArithOp::Mod => if b == 0 {
            Err(VmError::DivisionByZero)
        } else {
            match a.checked_rem(b) {
                Some(q) => Ok(q),
                None => Err(VmError::IntegerOverflow),
            }
        },
        ArithOp::Exp => if b < 0 || b > 0xffff_ffff {
            Err(VmError::IntegerOverflow)
        } else {
            match checked_power(a, b as u32) {
                Some(v) => Ok(v),
                None => Err(VmError::IntegerOverflow),
            }
        },
    }
}

} // verus!
