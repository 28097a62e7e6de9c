use vstd::prelude::*;
use vstd::arithmetic::div_mod::*;
use crate::context::{Context, ContextMethods, Frame, frame_of, lookup_in, assign_in, declare_in, key_name};
use crate::ast::{Expr, Op, MathToken, BoolToken, RelToken, VarToken, Type, Value, is_storable, has_type, storable, value_has_type};

verus! {

/// The ways evaluation can fail.
#[derive(PartialEq, Eq, Debug, Clone, Copy, Structural)]
pub enum EvalErr {
    /// A lookup or assignment target is not bound in any scope.
    NotFound,
    /// The construct is not supported by this evaluator.
    NotImplemented,
    /// Operand kinds, or a value and its declared type, disagree.
    TypeMismatch,
    /// The operator does not apply to the operand kind.
    WrongOp,
    /// A condition is not a boolean.
    WrongType,
    /// The right operand of `/` or `%` is zero.
    DivisionByZero,
    /// The scope stack is in a state the evaluator never creates.
    InternalError,
}

pub type EvalRes<T> = Result<T, EvalErr>;

/// How a statement completed: normally with a value, or by an explicit
/// `return` that unwinds the enclosing blocks.
#[derive(PartialEq, Eq, Debug)]
pub enum Flow {
    Normal(Value),
    Return(Value),
}

/// The quotient of `a / b` rounded toward zero.
pub open spec fn trunc_div(a: int, b: int) -> int
    recommends
        b != 0,
{
    if a == 0 {
        0
    } else if a > 0 && b > 0 {
        a / b
    } else if a < 0 && b < 0 {
        (-a) / (-b)
    } else if a < 0 {
        -((-a) / b)
    } else {
        -(a / (-b))
    }
}

/// The remainder of `a / b`, with the sign of `a`.
pub open spec fn trunc_rem(a: int, b: int) -> int
    recommends
        b != 0,
{
    if a == 0 {
        0
    } else if a > 0 && b > 0 {
        a % b
    } else if a < 0 && b < 0 {
        -((-a) % (-b))
    } else if a < 0 {
        -((-a) % b)
    } else {
        a % (-b)
    }
}

/// The 32-bit quotient; the one overflowing case, `i32::MIN / -1`, wraps to `i32::MIN`.
pub open spec fn quotient_i32(a: i32, b: i32) -> i32
    recommends
        b != 0,
{
    if a == i32::MIN && b == -1 {
        i32::MIN
    } else {
        trunc_div(a as int, b as int) as i32
    }
}

/// The 32-bit remainder (always in range).
pub open spec fn remainder_i32(a: i32, b: i32) -> i32
    recommends
        b != 0,
{
    trunc_rem(a as int, b as int) as i32
}

/// Integer operators: `+ - *` wrap on overflow, `/` and `%` reject a zero
/// divisor, relational operators compare numerically.
pub open spec fn i32_op(l: i32, op: Op, r: i32) -> EvalRes<Value> {
    match op {
        Op::MathOp(MathToken::Plus) => Ok(Value::Num(l.wrapping_add(r))),
        Op::MathOp(MathToken::Minus) => Ok(Value::Num(l.wrapping_sub(r))),
        Op::MathOp(MathToken::Multiply) => Ok(Value::Num(l.wrapping_mul(r))),
        Op::MathOp(MathToken::Division) => if r == 0 {
            Err(EvalErr::DivisionByZero)
        } else {
            Ok(Value::Num(quotient_i32(l, r)))
        },
        Op::MathOp(MathToken::Modulo) => if r == 0 {
            Err(EvalErr::DivisionByZero)
        } else {
            Ok(Value::Num(remainder_i32(l, r)))
        },
        Op::RelOp(RelToken::Equal) => Ok(Value::Bool(l == r)),
        Op::RelOp(RelToken::Neq) => Ok(Value::Bool(l != r)),
        Op::RelOp(RelToken::Geq) => Ok(Value::Bool(l > r)),
        Op::RelOp(RelToken::Leq) => Ok(Value::Bool(l < r)),
        _ => Err(EvalErr::WrongOp),
    }
}

/// `false < true` as an order on booleans.
pub open spec fn bool_lt(a: bool, b: bool) -> bool {
    !a && b
}

/// Boolean operators; `Not` negates the right operand.
pub open spec fn bool_op(l: bool, op: Op, r: bool) -> EvalRes<Value> {
    match op {
        Op::BoolOp(BoolToken::And) => Ok(Value::Bool(l && r)),
        Op::BoolOp(BoolToken::Or) => Ok(Value::Bool(l || r)),
        Op::BoolOp(BoolToken::Not) => Ok(Value::Bool(!r)),
        Op::RelOp(RelToken::Equal) => Ok(Value::Bool(l == r)),
        Op::RelOp(RelToken::Neq) => Ok(Value::Bool(l != r)),
        Op::RelOp(RelToken::Geq) => Ok(Value::Bool(bool_lt(r, l))),
        Op::RelOp(RelToken::Leq) => Ok(Value::Bool(bool_lt(l, r))),
        _ => Err(EvalErr::WrongOp),
    }
}

pub(crate) proof fn lemma_trunc_div_range(a: i32, b: i32)
    requires
        b != 0,
        !(a == i32::MIN && b == -1),
    ensures
        i32::MIN <= trunc_div(a as int, b as int) <= i32::MAX,
{
    let x = a as int;
    let d = b as int;
    if x > 0 && d > 0 {
        lemma_div_is_ordered_by_denominator(x, 1, d);
        lemma_div_basics(x);
        lemma_div_pos_is_pos(x, d);
    } else if x < 0 && d < 0 {
        lemma_div_pos_is_pos(-x, -d);
        if d == -1 {
            lemma_div_basics(-x);
        } else {
            lemma_div_is_ordered_by_denominator(-x, 2, -d);
            lemma_div_decreases(-x, 2);
        }
    } else if x < 0 {
        lemma_div_is_ordered_by_denominator(-x, 1, d);
        lemma_div_basics(-x);
        lemma_div_pos_is_pos(-x, d);
    } else if x > 0 {
        lemma_div_is_ordered_by_denominator(x, 1, -d);
        lemma_div_basics(x);
        lemma_div_pos_is_pos(x, -d);
    }
}

pub(crate) proof fn lemma_trunc_rem_range(a: i32, b: i32)
    requires
        b != 0,
    ensures
        i32::MIN < trunc_rem(a as int, b as int) <= i32::MAX,
{
    let x = a as int;
    let d = b as int;
    if x > 0 && d > 0 {
        lemma_mod_pos_bound(x, d);
    } else if x < 0 && d < 0 {
        lemma_mod_pos_bound(-x, -d);
    } else if x < 0 {
        lemma_mod_pos_bound(-x, d);
    } else if x > 0 {
        lemma_mod_pos_bound(x, -d);
    }
}

fn eval_i32_expr(l: i32, op: Op, r: i32) -> (res: EvalRes<Value>)
    ensures
        res == i32_op(l, op, r),
{
    match op {
        Op::MathOp(MathToken::Division) => {
            if r == 0 {
                return Err(EvalErr::DivisionByZero);
            }
            if l == i32::MIN && r == -1 {
                return Ok(Value::Num(i32::MIN));
            }
            proof {
                lemma_trunc_div_range(l, r);
            }
            match l.checked_div(r) {
                Some(q) => Ok(Value::Num(q)),
                None => Err(EvalErr::InternalError),
            }
        },
        Op::MathOp(MathToken::Multiply) => Ok(Value::Num(l.wrapping_mul(r))),
        Op::MathOp(MathToken::Plus) => Ok(Value::Num(l.wrapping_add(r))),
        Op::MathOp(MathToken::Minus) => Ok(Value::Num(l.wrapping_sub(r))),
        Op::MathOp(MathToken::Modulo) => {
            if r == 0 {
                return Err(EvalErr::DivisionByZero);
            }
            if l == i32::MIN && r == -1 {
                return Ok(Value::Num(0));
            }
            proof {
                lemma_trunc_rem_range(l, r);
            }
            match l.checked_rem(r) {
                Some(m) => Ok(Value::Num(m)),
                None => Err(EvalErr::InternalError),
            }
        },
        Op::RelOp(RelToken::Equal) => Ok(Value::Bool(l == r)),
        Op::RelOp(RelToken::Geq) => Ok(Value::Bool(l > r)),
        Op::RelOp(RelToken::Leq) => Ok(Value::Bool(l < r)),
        Op::RelOp(RelToken::Neq) => Ok(Value::Bool(l != r)),
        _ => Err(EvalErr::WrongOp),
    }
}

fn eval_bool_expr(l: bool, op: Op, r: bool) -> (res: EvalRes<Value>)
    ensures
        res == bool_op(l, op, r),
{
    match op {
        Op::BoolOp(BoolToken::And) => Ok(Value::Bool(l && r)),
        Op::BoolOp(BoolToken::Or) => Ok(Value::Bool(l || r)),
        Op::BoolOp(BoolToken::Not) => Ok(Value::Bool(!r)),
        Op::RelOp(RelToken::Equal) => Ok(Value::Bool(l == r)),
        Op::RelOp(RelToken::Geq) => Ok(Value::Bool(l && !r)),
        Op::RelOp(RelToken::Leq) => Ok(Value::Bool(!l && r)),
        Op::RelOp(RelToken::Neq) => Ok(Value::Bool(l != r)),
        _ => Err(EvalErr::WrongOp),
    }
}

/// The most iterations one loop runs; a loop still running after that stops
/// with `NotImplemented`.
pub const LOOP_LIMIT: u64 = 0xffff_ffff_ffff_ffff;

/// The variable name that a target node stands for.
pub open spec fn name_of(e: Expr) -> Option<Seq<char>> {
    match e {
        Expr::Var(s) => Some(s@),
        _ => None,
    }
}

/// Lifts the result of an operator table into a completion.
pub open spec fn normal(r: EvalRes<Value>) -> EvalRes<Flow> {
    match r {
        Ok(v) => Ok(Flow::Normal(v)),
        Err(e) => Err(e),
    }
}

/// Applies a binary operator to two evaluated operands.
pub open spec fn bin_op(lv: Value, op: Op, rv: Value) -> EvalRes<Value> {
    match (lv, rv) {
        (Value::Num(a), Value::Num(b)) => i32_op(a, op, b),
        (Value::Bool(a), Value::Bool(b)) => bool_op(a, op, b),
        _ => Err(EvalErr::TypeMismatch),
    }
}

/// The compound assignment operators on integers.
pub open spec fn compound_op(cur: i32, op: Op, v: i32) -> EvalRes<Value> {
    match op {
        Op::VarOp(VarToken::PlusEq) => Ok(Value::Num(cur.wrapping_add(v))),
        Op::VarOp(VarToken::MinEq) => Ok(Value::Num(cur.wrapping_sub(v))),
        Op::VarOp(VarToken::MulEq) => Ok(Value::Num(cur.wrapping_mul(v))),
        _ => Err(EvalErr::WrongOp),
    }
}

/// Assignment (plain or compound) of the evaluated right-hand side `v` to `n`.
pub open spec fn var_op_spec(n: Seq<char>, op: Op, v: Value, fs: Seq<Frame>) -> (
    EvalRes<Flow>,
    Seq<Frame>,
) {
    if op == Op::VarOp(VarToken::Assign) {
        if !is_storable(v) {
            (Err(EvalErr::TypeMismatch), fs)
        } else if frame_of(fs, n) is None {
            (Err(EvalErr::NotFound), fs)
        } else {
            (Ok(Flow::Normal(v)), assign_in(fs, n, v))
        }
    } else {
        match lookup_in(fs, n) {
            None => (Err(EvalErr::NotFound), fs),
            Some(cur) => match (cur, v) {
                (Value::Num(a), Value::Num(b)) => match compound_op(a, op, b) {
                    Ok(nv) => (Ok(Flow::Normal(nv)), assign_in(fs, n, nv)),
                    Err(err) => (Err(err), fs),
                },
                _ => (Err(EvalErr::TypeMismatch), fs),
            },
        }
    }
}

/// Declaration of `n` with type `t` and evaluated initializer `v`.
pub open spec fn let_spec(n: Seq<char>, t: Type, v: Value, fs: Seq<Frame>) -> (
    EvalRes<Flow>,
    Seq<Frame>,
) {
    if !(has_type(v, t) && is_storable(v)) {
        (Err(EvalErr::TypeMismatch), fs)
    } else if fs.len() == 0 {
        (Err(EvalErr::InternalError), fs)
    } else {
        (Ok(Flow::Normal(v)), declare_in(fs, n, v))
    }
}

/// Evaluation of one node: the completion and the frames afterwards.
pub open spec fn eval_spec(e: Expr, fs: Seq<Frame>) -> (EvalRes<Flow>, Seq<Frame>)
    decreases e, LOOP_LIMIT as int + 2,
{
    match e {
        Expr::Num(n) => (Ok(Flow::Normal(Value::Num(n))), fs),
        Expr::Bool(b) => (Ok(Flow::Normal(Value::Bool(b))), fs),
        Expr::Var(s) => (
            match lookup_in(fs, s@) {
                Some(v) => Ok(Flow::Normal(v)),
                None => Err(EvalErr::NotFound),
            },
            fs,
        ),
        Expr::BinOp(l, op, r) => {
            let (rl, fs1) = eval_spec(*l, fs);
            match rl {
                Ok(Flow::Normal(lv)) => {
                    let (rr, fs2) = eval_spec(*r, fs1);
                    match rr {
                        Ok(Flow::Normal(rv)) => (normal(bin_op(lv, op, rv)), fs2),
                        _ => (rr, fs2),
                    }
                },
                _ => (rl, fs1),
            }
        },
        Expr::VarOp(t, op, rhs) => match name_of(*t) {
            None => (Err(EvalErr::TypeMismatch), fs),
            Some(n) => {
                let (rv, fs1) = eval_spec(*rhs, fs);
                match rv {
                    Ok(Flow::Normal(v)) => var_op_spec(n, op, v, fs1),
                    _ => (rv, fs1),
                }
            },
        },
        Expr::Let(t, ty, init) => match name_of(*t) {
            None => (Err(EvalErr::TypeMismatch), fs),
            Some(n) => {
                let (rv, fs1) = eval_spec(*init, fs);
                match rv {
                    Ok(Flow::Normal(v)) => let_spec(n, ty, v, fs1),
                    _ => (rv, fs1),
                }
            },
        },
        Expr::If(c, b) => {
            let (rc, fs1) = eval_spec(*c, fs);
            match rc {
                Ok(Flow::Normal(Value::Bool(true))) => block_spec(b@, fs1),
                Ok(Flow::Normal(Value::Bool(false))) => (Ok(Flow::Normal(Value::Void)), fs1),
                Ok(Flow::Normal(_)) => (Err(EvalErr::WrongType), fs1),
                _ => (rc, fs1),
            }
        },
        Expr::IfElse(c, b1, b2) => {
            let (rc, fs1) = eval_spec(*c, fs);
            match rc {
                Ok(Flow::Normal(Value::Bool(true))) => block_spec(b1@, fs1),
                Ok(Flow::Normal(Value::Bool(false))) => block_spec(b2@, fs1),
                Ok(Flow::Normal(_)) => (Err(EvalErr::WrongType), fs1),
                _ => (rc, fs1),
            }
        },
        Expr::While(_, _) => while_spec(e, fs, LOOP_LIMIT as int),
        Expr::Func(_) => (Err(EvalErr::NotImplemented), fs),
        Expr::Return(x) => {
            let (rv, fs1) = eval_spec(*x, fs);
            match rv {
                Ok(Flow::Normal(v)) => (Ok(Flow::Return(v)), fs1),
                _ => (rv, fs1),
            }
        },
    }
}

/// A loop node `w` with at most `fuel` more iterations.
pub open spec fn while_spec(w: Expr, fs: Seq<Frame>, fuel: int) -> (EvalRes<Flow>, Seq<Frame>)
    decreases w, fuel,
{
    match w {
        Expr::While(c, body) => {
            let (rc, fs1) = eval_spec(*c, fs);
            match rc {
                Ok(Flow::Normal(Value::Bool(true))) => if fuel <= 0 {
                    (Err(EvalErr::NotImplemented), fs1)
                } else {
                    let (rb, fs2) = block_spec(body@, fs1);
                    match rb {
                        Ok(Flow::Normal(_)) => while_spec(w, fs2, fuel - 1),
                        _ => (rb, fs2),
                    }
                },
                Ok(Flow::Normal(Value::Bool(false))) => (Ok(Flow::Normal(Value::Void)), fs1),
                Ok(Flow::Normal(_)) => (Err(EvalErr::WrongType), fs1),
                _ => (rc, fs1),
            }
        },
        _ => (Err(EvalErr::InternalError), fs),
    }
}

/// A block: its statements under one new scope, which is released afterwards.
pub open spec fn block_spec(b: Seq<Expr>, fs: Seq<Frame>) -> (EvalRes<Flow>, Seq<Frame>)
    decreases b, b.len() + 1,
{
    let (r, fs1) = stmts_spec(b, 0, fs.push(Frame::empty()));
    (r, fs1.drop_last())
}

/// The statements of `b` from index `i` on, in order, stopping at the first
/// that fails or returns; the result is that of the last statement run. An
/// empty sequence has no result to give and fails with `NotFound`.
pub open spec fn stmts_spec(b: Seq<Expr>, i: int, fs: Seq<Frame>) -> (EvalRes<Flow>, Seq<Frame>)
    decreases b, b.len() - i,
{
    if i < 0 || i >= b.len() {
        (Err(EvalErr::NotFound), fs)
    } else {
        let (r, fs1) = eval_spec(b[i], fs);
        if i + 1 < b.len() && r matches Ok(Flow::Normal(_)) {
            stmts_spec(b, i + 1, fs1)
        } else {
            (r, fs1)
        }
    }
}

/// What a completion hands to the caller of a top-level entry point: a
/// `return` that reached it gives its value like a normal completion.
pub open spec fn outcome(r: EvalRes<Flow>) -> EvalRes<Value> {
    match r {
        Ok(Flow::Normal(v)) => Ok(v),
        Ok(Flow::Return(v)) => Ok(v),
        Err(e) => Err(e),
    }
}

fn eval_flow(e: &Expr, context: &mut Context) -> (r: EvalRes<Flow>)
    requires
        old(context).wf(),
    ensures
        final(context).wf(),
        final(context)@.len() == old(context)@.len(),
        (r, final(context)@) == eval_spec(*e, old(context)@),
    decreases e, 1int,
{
    match e {
        Expr::Num(n) => Ok(Flow::Normal(Value::Num(*n))),
        Expr::Bool(b) => Ok(Flow::Normal(Value::Bool(*b))),
        Expr::Var(s) => {
            let key = Value::Var(s.clone());
            match context.get_val(&key) {
                Ok(v) => Ok(Flow::Normal(v)),
                Err(err) => Err(err),
            }
        },
        Expr::BinOp(_, _, _) => eval_bin_expr(e, context),
        Expr::VarOp(t, op, rhs) => {
            let key = match t.to_name() {
                Ok(name) => Value::Var(name),
                Err(err) => return Err(err),
            };
            let rv = eval_flow(rhs, context);
            match rv {
                Ok(Flow::Normal(v)) => eval_var_op(&key, *op, &v, context),
                _ => rv,
            }
        },
        Expr::Let(_, _, _) => assign_var(e, context),
        Expr::If(_, _) | Expr::IfElse(_, _, _) => eval_if(e, context),
        Expr::While(_, _) => eval_while(e, context),
        Expr::Func(_) => Err(EvalErr::NotImplemented),
        Expr::Return(x) => {
            let rv = eval_flow(x, context);
            match rv {
                Ok(Flow::Normal(v)) => Ok(Flow::Return(v)),
                _ => rv,
            }
        },
    }
}

/// Evaluates both operands, left first, and applies the operator.
fn eval_bin_expr(e: &Expr, context: &mut Context) -> (res: EvalRes<Flow>)
    requires
        old(context).wf(),
        *e is BinOp,
    ensures
        final(context).wf(),
        final(context)@.len() == old(context)@.len(),
        (res, final(context)@) == eval_spec(*e, old(context)@),
    decreases e, 0int,
{
    let (l, op, r) = match e {
        Expr::BinOp(l, op, r) => (l, *op, r),
        _ => return Err(EvalErr::InternalError),
    };
    let l_val = match eval_flow(l, context) {
        Ok(Flow::Normal(v)) => v,
        other => return other,
    };
    let r_val = match eval_flow(r, context) {
        Ok(Flow::Normal(v)) => v,
        other => return other,
    };
    let res = match (l_val, r_val) {
        (Value::Num(a), Value::Num(b)) => eval_i32_expr(a, op, b),
        (Value::Bool(a), Value::Bool(b)) => eval_bool_expr(a, op, b),
        _ => Err(EvalErr::TypeMismatch),
    };
    match res {
        Ok(v) => Ok(Flow::Normal(v)),
        Err(err) => Err(err),
    }
}

/// Declares the target of a `Let` node with its evaluated initializer.
fn assign_var(e: &Expr, context: &mut Context) -> (r: EvalRes<Flow>)
    requires
        old(context).wf(),
        *e is Let,
    ensures
        final(context).wf(),
        final(context)@.len() == old(context)@.len(),
        (r, final(context)@) == eval_spec(*e, old(context)@),
    decreases e, 0int,
{
    let (var, ty, expr) = match e {
        Expr::Let(var, ty, expr) => (var, *ty, expr),
        _ => return Err(EvalErr::InternalError),
    };
    let id = match var.to_name() {
        Ok(name) => Value::Var(name),
        Err(err) => return Err(err),
    };
    let v = match eval_flow(expr, context) {
        Ok(Flow::Normal(v)) => v,
        other => return other,
    };
    if !(value_has_type(&v, ty) && storable(&v)) {
        return Err(EvalErr::TypeMismatch);
    }
    match context.insert_to_current_scope(&id, &v) {
        Ok(()) => Ok(Flow::Normal(v)),
        Err(err) => Err(err),
    }
}

/// Plain or compound assignment of the evaluated right-hand side to `key`.
fn eval_var_op(key: &Value, op: Op, new_val: &Value, context: &mut Context) -> (r: EvalRes<Flow>)
    requires
        old(context).wf(),
        key is Var,
    ensures
        final(context).wf(),
        final(context)@.len() == old(context)@.len(),
        (r, final(context)@) == var_op_spec(key_name(*key)->Some_0, op, *new_val, old(context)@),
{
    if op == Op::VarOp(VarToken::Assign) {
        if !storable(new_val) {
            return Err(EvalErr::TypeMismatch);
        }
        return match context.update_var(key, new_val) {
            Ok(v) => Ok(Flow::Normal(v)),
            Err(err) => Err(err),
        };
    }
    let cur = match context.get_val(key) {
        Ok(v) => v,
        Err(err) => return Err(err),
    };
    proof {
        crate::context::lemma_frame_of_bounds(context@, key_name(*key)->Some_0);
    }
    match (cur, new_val) {
        (Value::Num(a), Value::Num(b)) => {
            let nv = match op {
                Op::VarOp(VarToken::PlusEq) => a.wrapping_add(*b),
                Op::VarOp(VarToken::MinEq) => a.wrapping_sub(*b),
                Op::VarOp(VarToken::MulEq) => a.wrapping_mul(*b),
                _ => return Err(EvalErr::WrongOp),
            };
            match context.update_var(key, &Value::Num(nv)) {
                Ok(v) => Ok(Flow::Normal(v)),
                Err(err) => Err(err),
            }
        },
        _ => Err(EvalErr::TypeMismatch),
    }
}

/// A conditional, with or without an else-block: exactly one block runs, or
/// none when the condition is false and there is no else-block.
fn eval_if(e: &Expr, context: &mut Context) -> (r: EvalRes<Flow>)
    requires
        old(context).wf(),
        *e is If || *e is IfElse,
    ensures
        final(context).wf(),
        final(context)@.len() == old(context)@.len(),
        (r, final(context)@) == eval_spec(*e, old(context)@),
    decreases e, 0int,
{
    let (cond, then_block, else_block) = match e {
        Expr::If(c, b) => (c, b, None),
        Expr::IfElse(c, b1, b2) => (c, b1, Some(b2)),
        _ => return Err(EvalErr::InternalError),
    };
    match eval_flow(cond, context) {
        Ok(Flow::Normal(Value::Bool(true))) => eval_block_flow(then_block, context),
        Ok(Flow::Normal(Value::Bool(false))) => match else_block {
            Some(b) => eval_block_flow(b, context),
            None => Ok(Flow::Normal(Value::Void)),
        },
        Ok(Flow::Normal(_)) => Err(EvalErr::WrongType),
        other => other,
    }
}

fn eval_while(w: &Expr, context: &mut Context) -> (r: EvalRes<Flow>)
    requires
        old(context).wf(),
        *w is While,
    ensures
        final(context).wf(),
        final(context)@.len() == old(context)@.len(),
        (r, final(context)@) == while_spec(*w, old(context)@, LOOP_LIMIT as int),
    decreases w, 0int,
{
    match w {
        Expr::While(c, body) => {
            let mut fuel: u64 = LOOP_LIMIT;
            loop
                invariant
                    context.wf(),
                    context@.len() == old(context)@.len(),
                    *w == Expr::While(*c, *body),
                    while_spec(*w, context@, fuel as int) == while_spec(
                        *w,
                        old(context)@,
                        LOOP_LIMIT as int,
                    ),
                decreases fuel,
            {
                match eval_flow(c, context) {
                    Ok(Flow::Normal(Value::Bool(true))) => {
                        if fuel == 0 {
                            return Err(EvalErr::NotImplemented);
                        }
                        match eval_block_flow(body, context) {
                            Ok(Flow::Normal(_)) => {
                                fuel -= 1;
                            },
                            other => return other,
                        }
                    },
                    Ok(Flow::Normal(Value::Bool(false))) => return Ok(Flow::Normal(Value::Void)),
                    Ok(Flow::Normal(_)) => return Err(EvalErr::WrongType),
                    other => return other,
                }
            }
        },
        _ => Err(EvalErr::InternalError),
    }
}

/// A block under one new scope; the scope is released on every exit path.
fn eval_block_flow(block: &Vec<Expr>, context: &mut Context) -> (r: EvalRes<Flow>)
    requires
        old(context).wf(),
    ensures
        final(context).wf(),
        final(context)@.len() == old(context)@.len(),
        (r, final(context)@) == block_spec(block@, old(context)@),
    decreases block, 1int,
{
    context.new_scope();
    let r = eval_stmts(block, context);
    context.drop_current_scope();
    r
}

/// The statements of a block in order, in the current scope.
fn eval_stmts(block: &Vec<Expr>, context: &mut Context) -> (r: EvalRes<Flow>)
    requires
        old(context).wf(),
    ensures
        final(context).wf(),
        final(context)@.len() == old(context)@.len(),
        (r, final(context)@) == stmts_spec(block@, 0, old(context)@),
    decreases block, 0int,
{
    let n = block.len();
    if n == 0 {
        return Err(EvalErr::NotFound);
    }
    let mut i: usize = 0;
    loop
        invariant
            i < n == block.len(),
            context.wf(),
            context@.len() == old(context)@.len(),
            stmts_spec(block@, i as int, context@) == stmts_spec(block@, 0, old(context)@),
        decreases n - i,
    {
        let r = eval_flow(&block[i], context);
        if i + 1 == n {
            return r;
        }
        match r {
            Ok(Flow::Normal(_)) => {
                i += 1;
            },
            _ => return r,
        }
    }
}

/// Evaluates one node against `context`; a `return` that reaches this level
/// gives its value.
pub fn eval_expr(e: Expr, context: &mut Context) -> (r: EvalRes<Value>)
    requires
        old(context).wf(),
    ensures
        final(context).wf(),
        final(context)@.len() == old(context)@.len(),
        final(context)@ == eval_spec(e, old(context)@).1,
        r == outcome(eval_spec(e, old(context)@).0),
{
    let r = eval_flow(&e, context);
    match r {
        Ok(Flow::Normal(v)) => Ok(v),
        Ok(Flow::Return(v)) => Ok(v),
        Err(err) => Err(err),
    }
}

/// Evaluates a block under one new scope and releases it; the result is that
/// of the last statement run.
pub fn eval_block(block: Vec<Expr>, context: &mut Context) -> (r: EvalRes<Value>)
    requires
        old(context).wf(),
    ensures
        final(context).wf(),
        final(context)@.len() == old(context)@.len(),
        final(context)@ == block_spec(block@, old(context)@).1,
        r == outcome(block_spec(block@, old(context)@).0),
{
    let r = eval_block_flow(&block, context);
    match r {
        Ok(Flow::Normal(v)) => Ok(v),
        Ok(Flow::Return(v)) => Ok(v),
        Err(err) => Err(err),
    }
}

} // verus!
