//! The expressions that directives hold: conditions, assertions, arguments
//! and transforms over the fields that were processed before.

use vstd::prelude::*;
use vstd::wrapping::u64_specs;

verus! {

/// A binary operator. Comparisons and connectives give 1 for true and 0 for
/// false; anything but 0 counts as true.
#[derive(Clone, Copy, Debug, PartialEq, Eq, Structural)]
pub enum BinOp {
    Add,
    Sub,
    Mul,
    Eq,
    Ne,
    Lt,
    Le,
    Gt,
    Ge,
    And,
    Or,
}

/// An expression over unsigned 64-bit numbers.
#[derive(Debug, PartialEq, Eq)]
pub enum Expr {
    /// A literal.
    Lit(u64),
    /// The number that stands for an earlier field of the same definition, by
    /// its place in declaration order: an integer field's value, a
    /// collection's length, 0 for anything else.
    Field(usize),
    /// An argument that the definition was called with, by its place.
    Arg(usize),
    /// The number that stands for the field that the directive sits on.
    This,
    /// 1 where the operand is 0, else 0.
    Not(Box<Expr>),
    /// A binary operation.
    Binary(BinOp, Box<Expr>, Box<Expr>),
}

/// 1 for true, 0 for false.
pub open spec fn truth(b: bool) -> u64 {
    if b {
        1
    } else {
        0
    }
}

/// The entry `i` of `numbers`, or 0 where there is none.
pub open spec fn entry(numbers: Seq<u64>, i: usize) -> u64 {
    if i < numbers.len() {
        numbers[i as int]
    } else {
        0
    }
}

/// What an operator gives, arithmetic wrapping around at 2^64.
pub open spec fn apply(op: BinOp, l: u64, r: u64) -> u64 {
    match op {
        BinOp::Add => u64_specs::wrapping_add(l, r),
        BinOp::Sub => u64_specs::wrapping_sub(l, r),
        BinOp::Mul => u64_specs::wrapping_mul(l, r),
        BinOp::Eq => truth(l == r),
        BinOp::Ne => truth(l != r),
        BinOp::Lt => truth(l < r),
        BinOp::Le => truth(l <= r),
        BinOp::Gt => truth(l > r),
        BinOp::Ge => truth(l >= r),
        BinOp::And => truth(l != 0 && r != 0),
        BinOp::Or => truth(l != 0 || r != 0),
    }
}

/// What an operator gives, or nothing where the arithmetic leaves the range
/// of 64 bits.
pub open spec fn try_apply(op: BinOp, l: u64, r: u64) -> Option<u64> {
    match op {
        BinOp::Add => if l + r <= u64::MAX {
            Some((l + r) as u64)
        } else {
            None
        },
        BinOp::Sub => if l >= r {
            Some((l - r) as u64)
        } else {
            None
        },
        BinOp::Mul => if l * r <= u64::MAX {
            Some((l * r) as u64)
        } else {
            None
        },
        _ => Some(apply(op, l, r)),
    }
}

/// The value of `expr`, with wrapping arithmetic. `env` holds the numbers of
/// the fields processed so far, `args` the arguments, `this` the number of
/// the field at hand.
pub open spec fn eval(expr: Expr, env: Seq<u64>, args: Seq<u64>, this: u64) -> u64
    decreases expr,
{
    match expr {
        Expr::Lit(n) => n,
        Expr::Field(i) => entry(env, i),
        Expr::Arg(i) => entry(args, i),
        Expr::This => this,
        Expr::Not(inner) => truth(eval(*inner, env, args, this) == 0),
        Expr::Binary(op, l, r) => apply(
            op,
            eval(*l, env, args, this),
            eval(*r, env, args, this),
        ),
    }
}

/// The value of `expr` with checked arithmetic: nothing where a sum, a
/// difference or a product anywhere in it leaves the range of 64 bits.
pub open spec fn try_eval(expr: Expr, env: Seq<u64>, args: Seq<u64>, this: u64) -> Option<u64>
    decreases expr,
{
    match expr {
        Expr::Lit(n) => Some(n),
        Expr::Field(i) => Some(entry(env, i)),
        Expr::Arg(i) => Some(entry(args, i)),
        Expr::This => Some(this),
        Expr::Not(inner) => match try_eval(*inner, env, args, this) {
            Some(v) => Some(truth(v == 0)),
            None => None,
        },
        Expr::Binary(op, l, r) => match try_eval(*l, env, args, this) {
            Some(a) => match try_eval(*r, env, args, this) {
                Some(b) => try_apply(op, a, b),
                None => None,
            },
            None => None,
        },
    }
}

/// The values of `exprs`, in order.
pub open spec fn eval_all(exprs: Seq<Expr>, env: Seq<u64>, args: Seq<u64>) -> Seq<u64> {
    Seq::new(exprs.len(), |i: int| eval(exprs[i], env, args, 0))
}

fn flag(b: bool) -> (n: u64)
    ensures
        n == truth(b),
{
    if b {
        1
    } else {
        0
    }
}

fn lookup(numbers: &Vec<u64>, i: usize) -> (n: u64)
    ensures
        n == entry(numbers@, i),
{
    if i < numbers.len() {
        numbers[i]
    } else {
        0
    }
}

impl BinOp {
    /// Applies the operator with wrapping arithmetic.
    pub fn apply(self, l: u64, r: u64) -> (n: u64)
        ensures
            n == apply(self, l, r),
    {
        match self {
            BinOp::Add => l.wrapping_add(r),
            BinOp::Sub => l.wrapping_sub(r),
            BinOp::Mul => l.wrapping_mul(r),
            BinOp::Eq => flag(l == r),
            BinOp::Ne => flag(l != r),
            BinOp::Lt => flag(l < r),
            BinOp::Le => flag(l <= r),
            BinOp::Gt => flag(l > r),
            BinOp::Ge => flag(l >= r),
            BinOp::And => flag(l != 0 && r != 0),
            BinOp::Or => flag(l != 0 || r != 0),
        }
    }

    /// Applies the operator with checked arithmetic.
    pub fn try_apply(self, l: u64, r: u64) -> (n: Option<u64>)
        ensures
            n == try_apply(self, l, r),
    {
        match self {
            BinOp::Add => l.checked_add(r),
            BinOp::Sub => l.checked_sub(r),
            BinOp::Mul => l.checked_mul(r),
            _ => Some(self.apply(l, r)),
        }
    }
}

impl Expr {
    /// Evaluates the expression with wrapping arithmetic.
    pub fn eval(&self, env: &Vec<u64>, args: &Vec<u64>, this: u64) -> (n: u64)
        ensures
            n == eval(*self, env@, args@, this),
        decreases self,
    {
        match self {
            Expr::Lit(n) => *n,
            Expr::Field(i) => lookup(env, *i),
            Expr::Arg(i) => lookup(args, *i),
            Expr::This => this,
            Expr::Not(inner) => flag(inner.eval(env, args, this) == 0),
            Expr::Binary(op, l, r) => {
                let a = l.eval(env, args, this);
                let b = r.eval(env, args, this);
                op.apply(a, b)
            },
        }
    }

    /// Evaluates the expression with checked arithmetic.
    pub fn try_eval(&self, env: &Vec<u64>, args: &Vec<u64>, this: u64) -> (n: Option<u64>)
        ensures
            n == try_eval(*self, env@, args@, this),
        decreases self,
    {
        match self {
            Expr::Lit(n) => Some(*n),
            Expr::Field(i) => Some(lookup(env, *i)),
            Expr::Arg(i) => Some(lookup(args, *i)),
            Expr::This => Some(this),
            Expr::Not(inner) => match inner.try_eval(env, args, this) {
                Some(v) => Some(flag(v == 0)),
                None => None,
            },
            Expr::Binary(op, l, r) => match l.try_eval(env, args, this) {
                Some(a) => match r.try_eval(env, args, this) {
                    Some(b) => op.try_apply(a, b),
                    None => None,
                },
                None => None,
            },
        }
    }
}

/// Evaluates each of `exprs` with wrapping arithmetic.
pub fn eval_each(exprs: &Vec<Expr>, env: &Vec<u64>, args: &Vec<u64>) -> (values: Vec<u64>)
    ensures
        values@ == eval_all(exprs@, env@, args@),
{
    let mut values: Vec<u64> = Vec::new();
    let mut i: usize = 0;
    while i < exprs.len()
        invariant
            i <= exprs.len(),
            values@.len() == i,
            forall|j: int| 0 <= j < i ==> values@[j] == eval(exprs@[j], env@, args@, 0),
        decreases exprs.len() - i,
    {
        values.push(exprs[i].eval(env, args, 0));
        i = i + 1;
    }
    assert(values@ =~= eval_all(exprs@, env@, args@));
    values
}

} // verus!
