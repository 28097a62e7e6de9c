use vstd::prelude::*;
use crate::ast::{Expr, Op, MathToken, BoolToken, RelToken, VarToken, Value};
use crate::context::{Frame, frame_of, lookup_in, assign_in, declare_in, lemma_frame_of_bounds, lemma_frame_of_prefix};
use vstd::arithmetic::div_mod::{lemma_fundamental_div_mod, lemma_mod_pos_bound};
use crate::interpreter::{
    EvalErr, Flow, eval_spec, while_spec, block_spec, stmts_spec, var_op_spec, trunc_div,
    trunc_rem, quotient_i32, remainder_i32, LOOP_LIMIT,
};

verus! {

/// Every frame but the innermost keeps its names; the innermost may gain some.
pub open spec fn grows_innermost(a: Seq<Frame>, b: Seq<Frame>) -> bool {
    &&& a.len() == b.len()
    &&& forall|i: int| 0 <= i < a.len() - 1 ==> (#[trigger] a[i]).dom() == b[i].dom()
    &&& a.len() > 0 ==> a.last().dom().subset_of(b.last().dom())
}

/// Every frame keeps exactly its names.
pub open spec fn same_names(a: Seq<Frame>, b: Seq<Frame>) -> bool {
    &&& a.len() == b.len()
    &&& forall|i: int| 0 <= i < a.len() ==> (#[trigger] a[i]).dom() == b[i].dom()
}

proof fn lemma_grows_trans(a: Seq<Frame>, b: Seq<Frame>, c: Seq<Frame>)
    requires
        grows_innermost(a, b),
        grows_innermost(b, c),
    ensures
        grows_innermost(a, c),
{
    assert forall|i: int| 0 <= i < a.len() - 1 implies (#[trigger] a[i]).dom() == c[i].dom() by {
        assert(a[i].dom() == b[i].dom());
    }
}

proof fn lemma_assign_names(fs: Seq<Frame>, n: Seq<char>, v: Value)
    ensures
        same_names(fs, assign_in(fs, n, v)),
{
    lemma_frame_of_bounds(fs, n);
    let r = assign_in(fs, n, v);
    if let Some(i) = frame_of(fs, n) {
        assert(fs[i].insert(n, v).dom() =~= fs[i].dom());
        assert forall|j: int| 0 <= j < fs.len() implies (#[trigger] fs[j]).dom() == r[j].dom() by {
            if j == i {
                assert(r[j] == fs[i].insert(n, v));
            }
        }
    }
}

proof fn lemma_var_op_names(n: Seq<char>, op: Op, v: Value, fs: Seq<Frame>)
    ensures
        same_names(fs, var_op_spec(n, op, v, fs).1),
{
    lemma_assign_names(fs, n, v);
    if let Some(Value::Num(a)) = lookup_in(fs, n) {
        if let Value::Num(b) = v {
            lemma_assign_names(fs, n, Value::Num(a.wrapping_add(b)));
            lemma_assign_names(fs, n, Value::Num(a.wrapping_sub(b)));
            lemma_assign_names(fs, n, Value::Num(a.wrapping_mul(b)));
        }
    }
}

proof fn lemma_eval_names(e: Expr, fs: Seq<Frame>)
    ensures
        grows_innermost(fs, eval_spec(e, fs).1),
    decreases e, LOOP_LIMIT as int + 2,
{
    match e {
        Expr::BinOp(l, op, r) => {
            lemma_eval_names(*l, fs);
            let fs1 = eval_spec(*l, fs).1;
            lemma_eval_names(*r, fs1);
            lemma_grows_trans(fs, fs1, eval_spec(*r, fs1).1);
        },
        Expr::VarOp(t, op, rhs) => {
            lemma_eval_names(*rhs, fs);
            let fs1 = eval_spec(*rhs, fs).1;
            if let Ok(Flow::Normal(v)) = eval_spec(*rhs, fs).0 {
                lemma_var_op_names(crate::interpreter::name_of(*t)->Some_0, op, v, fs1);
                lemma_grows_trans(fs, fs1, var_op_spec(crate::interpreter::name_of(*t)->Some_0, op, v, fs1).1);
            }
        },
        Expr::Let(t, ty, init) => {
            lemma_eval_names(*init, fs);
            let fs1 = eval_spec(*init, fs).1;
            if fs1.len() > 0 {
                if let Ok(Flow::Normal(v)) = eval_spec(*init, fs).0 {
                    let n = crate::interpreter::name_of(*t)->Some_0;
                    let fs2 = declare_in(fs1, n, v);
                    assert(grows_innermost(fs1, fs2));
                    lemma_grows_trans(fs, fs1, fs2);
                }
            }
        },
        Expr::If(c, b) => {
            lemma_eval_names(*c, fs);
            let fs1 = eval_spec(*c, fs).1;
            lemma_block_names(b@, fs1);
            lemma_grows_trans(fs, fs1, block_spec(b@, fs1).1);
        },
        Expr::IfElse(c, b1, b2) => {
            lemma_eval_names(*c, fs);
            let fs1 = eval_spec(*c, fs).1;
            lemma_block_names(b1@, fs1);
            lemma_block_names(b2@, fs1);
            lemma_grows_trans(fs, fs1, block_spec(b1@, fs1).1);
            lemma_grows_trans(fs, fs1, block_spec(b2@, fs1).1);
        },
        Expr::While(_, _) => {
            lemma_while_names(e, fs, LOOP_LIMIT as int);
        },
        Expr::Return(x) => {
            lemma_eval_names(*x, fs);
        },
        _ => {},
    }
}

proof fn lemma_while_names(w: Expr, fs: Seq<Frame>, fuel: int)
    ensures
        grows_innermost(fs, while_spec(w, fs, fuel).1),
    decreases w, fuel,
{
    if let Expr::While(c, body) = w {
        lemma_eval_names(*c, fs);
        let fs1 = eval_spec(*c, fs).1;
        lemma_block_names(body@, fs1);
        let fs2 = block_spec(body@, fs1).1;
        lemma_grows_trans(fs, fs1, fs2);
        if fuel > 0 {
            lemma_while_names(w, fs2, fuel - 1);
            lemma_grows_trans(fs, fs2, while_spec(w, fs2, fuel - 1).1);
        }
    }
}

proof fn lemma_block_names(b: Seq<Expr>, fs: Seq<Frame>)
    ensures
        same_names(fs, block_spec(b, fs).1),
    decreases b, b.len() + 1,
{
    let inner = fs.push(Frame::empty());
    lemma_stmts_names(b, 0, inner);
    let fs1 = stmts_spec(b, 0, inner).1;
    assert forall|i: int| 0 <= i < fs.len() implies (#[trigger] fs[i]).dom() == fs1.drop_last()[i].dom() by {
        assert(inner[i] == fs[i]);
    }
}

proof fn lemma_stmts_names(b: Seq<Expr>, i: int, fs: Seq<Frame>)
    ensures
        grows_innermost(fs, stmts_spec(b, i, fs).1),
    decreases b, b.len() - i,
{
    if 0 <= i < b.len() {
        lemma_eval_names(b[i], fs);
        let fs1 = eval_spec(b[i], fs).1;
        if i + 1 < b.len() {
            lemma_stmts_names(b, i + 1, fs1);
            lemma_grows_trans(fs, fs1, stmts_spec(b, i + 1, fs1).1);
        }
    }
}

/// The node `a op b` over two integer literals.
pub open spec fn num_op(a: i32, op: Op, b: i32) -> Expr {
    Expr::BinOp(Box::new(Expr::Num(a)), op, Box::new(Expr::Num(b)))
}

/// The node `a op b` over two boolean literals.
pub open spec fn bool_node(a: bool, op: Op, b: bool) -> Expr {
    Expr::BinOp(Box::new(Expr::Bool(a)), op, Box::new(Expr::Bool(b)))
}

pub open spec fn abs(x: int) -> int {
    if x < 0 {
        -x
    } else {
        x
    }
}

/// Integer division and remainder: for a nonzero divisor `b`, `a / b` and
/// `a % b` evaluate to the truncating quotient `q` and remainder `r`, with
/// `a == b * q + r`, `|r| < |b|` and `r` zero or of the sign of `a` (the one
/// quotient that does not fit, `i32::MIN / -1`, wraps); a zero divisor fails
/// with `DivisionByZero`. The context is left unchanged.
pub proof fn law_division(a: i32, b: i32, fs: Seq<Frame>)
    ensures
        b == 0 ==> eval_spec(num_op(a, Op::MathOp(MathToken::Division), b), fs) == (
            Err::<Flow, EvalErr>(EvalErr::DivisionByZero),
            fs,
        ),
        b == 0 ==> eval_spec(num_op(a, Op::MathOp(MathToken::Modulo), b), fs) == (
            Err::<Flow, EvalErr>(EvalErr::DivisionByZero),
            fs,
        ),
        b != 0 ==> eval_spec(num_op(a, Op::MathOp(MathToken::Division), b), fs) == (
            Ok::<Flow, EvalErr>(Flow::Normal(Value::Num(quotient_i32(a, b)))),
            fs,
        ),
        b != 0 ==> eval_spec(num_op(a, Op::MathOp(MathToken::Modulo), b), fs) == (
            Ok::<Flow, EvalErr>(Flow::Normal(Value::Num(remainder_i32(a, b)))),
            fs,
        ),
        b != 0 ==> a == b * trunc_div(a as int, b as int) + trunc_rem(a as int, b as int),
        b != 0 ==> abs(trunc_rem(a as int, b as int)) < abs(b as int),
        b != 0 ==> trunc_rem(a as int, b as int) == 0 || (trunc_rem(a as int, b as int) > 0) == (a
            > 0),
        b != 0 && !(a == i32::MIN && b == -1) ==> quotient_i32(a, b) == trunc_div(a as int, b as int),
        b != 0 ==> remainder_i32(a, b) == trunc_rem(a as int, b as int),
{
    assert(eval_spec(Expr::Num(a), fs) == (Ok::<Flow, EvalErr>(Flow::Normal(Value::Num(a))), fs));
    assert(eval_spec(Expr::Num(b), fs) == (Ok::<Flow, EvalErr>(Flow::Normal(Value::Num(b))), fs));
    if b != 0 {
        let x = a as int;
        let d = b as int;
        if x > 0 && d > 0 {
            lemma_fundamental_div_mod(x, d);
            lemma_mod_pos_bound(x, d);
        } else if x < 0 && d < 0 {
            lemma_fundamental_div_mod(-x, -d);
            lemma_mod_pos_bound(-x, -d);
            let q = (-x) / (-d);
            assert((-d) * q == -(d * q)) by (nonlinear_arith);
        } else if x < 0 {
            lemma_fundamental_div_mod(-x, d);
            lemma_mod_pos_bound(-x, d);
            let q = (-x) / d;
            assert(d * (-q) == -(d * q)) by (nonlinear_arith);
        } else if x > 0 {
            lemma_fundamental_div_mod(x, -d);
            lemma_mod_pos_bound(x, -d);
            let q = x / (-d);
            assert(d * (-q) == (-d) * q) by (nonlinear_arith);
        }
        crate::interpreter::lemma_trunc_rem_range(a, b);
        if !(a == i32::MIN && b == -1) {
            crate::interpreter::lemma_trunc_div_range(a, b);
        }
    }
}

/// Boolean operators follow the truth tables of `and`, `or` and `not` (which
/// negates its right operand), and comparisons order `false` before `true`.
pub proof fn law_bool_tables(a: bool, b: bool, fs: Seq<Frame>)
    ensures
        eval_spec(bool_node(a, Op::BoolOp(BoolToken::And), b), fs).0 == Ok::<Flow, EvalErr>(
            Flow::Normal(Value::Bool(a && b)),
        ),
        eval_spec(bool_node(a, Op::BoolOp(BoolToken::Or), b), fs).0 == Ok::<Flow, EvalErr>(
            Flow::Normal(Value::Bool(a || b)),
        ),
        eval_spec(bool_node(a, Op::BoolOp(BoolToken::Not), b), fs).0 == Ok::<Flow, EvalErr>(
            Flow::Normal(Value::Bool(!b)),
        ),
        eval_spec(bool_node(a, Op::RelOp(RelToken::Leq), b), fs).0 == Ok::<Flow, EvalErr>(
            Flow::Normal(Value::Bool(a == false && b == true)),
        ),
        eval_spec(bool_node(a, Op::RelOp(RelToken::Geq), b), fs).0 == Ok::<Flow, EvalErr>(
            Flow::Normal(Value::Bool(a == true && b == false)),
        ),
        eval_spec(bool_node(a, Op::RelOp(RelToken::Equal), b), fs).0 == Ok::<Flow, EvalErr>(
            Flow::Normal(Value::Bool(a == b)),
        ),
        eval_spec(bool_node(a, Op::RelOp(RelToken::Neq), b), fs).0 == Ok::<Flow, EvalErr>(
            Flow::Normal(Value::Bool(a != b)),
        ),
{
    assert(eval_spec(Expr::Bool(a), fs) == (Ok::<Flow, EvalErr>(Flow::Normal(Value::Bool(a))), fs));
    assert(eval_spec(Expr::Bool(b), fs) == (Ok::<Flow, EvalErr>(Flow::Normal(Value::Bool(b))), fs));
}

/// A conditional without else whose condition is `false` runs nothing of its
/// block: the context is unchanged and the result is the absent value.
pub proof fn law_skipped_branch(block: Vec<Expr>, fs: Seq<Frame>)
    ensures
        eval_spec(Expr::If(Box::new(Expr::Bool(false)), block), fs) == (
            Ok::<Flow, EvalErr>(Flow::Normal(Value::Void)),
            fs,
        ),
{
    assert(eval_spec(Expr::Bool(false), fs) == (
        Ok::<Flow, EvalErr>(Flow::Normal(Value::Bool(false))),
        fs,
    ));
}

/// A block releases the scope it pushed on every path, failures included:
/// afterwards the stack has its former depth and every frame its former names.
pub proof fn law_block_releases_scope(block: Seq<Expr>, fs: Seq<Frame>)
    ensures
        block_spec(block, fs).1.len() == fs.len(),
        same_names(fs, block_spec(block, fs).1),
{
    lemma_block_names(block, fs);
}

/// A name that no frame binds before a block binds none after it: what the
/// block declared is gone once its scope is released.
pub proof fn law_block_local(block: Seq<Expr>, fs: Seq<Frame>, n: Seq<char>)
    requires
        lookup_in(fs, n) is None,
    ensures
        lookup_in(block_spec(block, fs).1, n) is None,
{
    let fs1 = block_spec(block, fs).1;
    lemma_block_names(block, fs);
    lemma_frame_of_bounds(fs, n);
    lemma_frame_of_bounds(fs1, n);
    if let Some(i) = frame_of(fs1, n) {
        assert(fs[i].dom() == fs1[i].dom());
        assert(fs1[i].dom().contains(n));
    }
}

/// A declared name is visible in its own scope and in every scope nested
/// inside it that does not bind the name again.
pub proof fn law_declared_visible(fs: Seq<Frame>, n: Seq<char>, v: Value, inner: Seq<Frame>)
    requires
        fs.len() > 0,
        forall|j: int| 0 <= j < inner.len() ==> !(#[trigger] inner[j]).contains_key(n),
    ensures
        lookup_in(declare_in(fs, n, v) + inner, n) == Some(v),
{
    let d = declare_in(fs, n, v);
    let all = d + inner;
    assert forall|j: int| d.len() <= j < all.len() implies !(#[trigger] all[j]).contains_key(n) by {
        assert(all[j] == inner[j - d.len()]);
    }
    lemma_frame_of_prefix(all, n, d.len() as int);
    assert(all.subrange(0, d.len() as int) =~= d);
}

/// Assigning to a name that no frame binds fails with `NotFound` and leaves
/// the context unchanged.
pub proof fn law_assign_undeclared(name: String, k: i32, fs: Seq<Frame>)
    requires
        lookup_in(fs, name@) is None,
    ensures
        eval_spec(
            Expr::VarOp(
                Box::new(Expr::Var(name)),
                Op::VarOp(VarToken::Assign),
                Box::new(Expr::Num(k)),
            ),
            fs,
        ) == (Err::<Flow, EvalErr>(EvalErr::NotFound), fs),
{
    assert(eval_spec(Expr::Num(k), fs) == (Ok::<Flow, EvalErr>(Flow::Normal(Value::Num(k))), fs));
}

/// Declaring a name twice in the innermost scope keeps the second value and
/// leaves every outer scope, and its binding of the same name, as it was.
pub proof fn law_redeclare(fs: Seq<Frame>, n: Seq<char>, v1: Value, v2: Value)
    requires
        fs.len() > 0,
    ensures
        declare_in(declare_in(fs, n, v1), n, v2) == declare_in(fs, n, v2),
        declare_in(fs, n, v2).drop_last() == fs.drop_last(),
        lookup_in(declare_in(declare_in(fs, n, v1), n, v2), n) == Some(v2),
{
    let d1 = declare_in(fs, n, v1);
    assert(d1.last().insert(n, v2) =~= fs.last().insert(n, v2));
    assert(declare_in(d1, n, v2) =~= declare_in(fs, n, v2));
    assert(declare_in(fs, n, v2).drop_last() =~= fs.drop_last());
    law_declared_visible(fs, n, v2, Seq::empty());
    assert(declare_in(fs, n, v2) + Seq::<Frame>::empty() =~= declare_in(fs, n, v2));
}

/// A compound assignment reads the binding found innermost-first and writes
/// the combined value back into that same frame, whichever frame it is.
pub proof fn law_compound_in_found_frame(fs: Seq<Frame>, n: Seq<char>, a: i32, b: i32)
    requires
        lookup_in(fs, n) == Some(Value::Num(a)),
    ensures
        frame_of(fs, n) is Some,
        var_op_spec(n, Op::VarOp(VarToken::PlusEq), Value::Num(b), fs) == (
            Ok::<Flow, EvalErr>(Flow::Normal(Value::Num(a.wrapping_add(b)))),
            fs.update(
                frame_of(fs, n)->Some_0,
                fs[frame_of(fs, n)->Some_0].insert(n, Value::Num(a.wrapping_add(b))),
            ),
        ),
{
}

} // verus!
