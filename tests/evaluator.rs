use expr_interp::ast::{BoolToken, Expr, MathToken, Op, RelToken, Type, Value, VarToken};
use expr_interp::context::{Context, ContextMethods};
use expr_interp::interpreter::{eval_block, eval_expr, EvalErr};

fn num(n: i32) -> Box<Expr> {
    Box::new(Expr::Num(n))
}

fn boolean(b: bool) -> Box<Expr> {
    Box::new(Expr::Bool(b))
}

fn var(name: &str) -> Box<Expr> {
    Box::new(Expr::Var(name.to_string()))
}

fn bin(l: Box<Expr>, op: Op, r: Box<Expr>) -> Expr {
    Expr::BinOp(l, op, r)
}

fn math(t: MathToken) -> Op {
    Op::MathOp(t)
}

fn declare(name: &str, t: Type, init: Box<Expr>) -> Expr {
    Expr::Let(var(name), t, init)
}

fn var_op(name: &str, t: VarToken, rhs: Box<Expr>) -> Expr {
    Expr::VarOp(var(name), Op::VarOp(t), rhs)
}

fn scoped() -> Context {
    let mut c = Context::new();
    c.new_scope();
    c
}

fn key(name: &str) -> Value {
    Value::Var(name.to_string())
}

#[test]
fn division_and_remainder_truncate() {
    let cases = [(7, 2, 3, 1), (-7, 2, -3, -1), (7, -2, -3, 1), (-7, -2, 3, -1), (6, 3, 2, 0), (0, 5, 0, 0)];
    for (a, b, q, r) in cases {
        let mut c = scoped();
        assert_eq!(eval_expr(bin(num(a), math(MathToken::Division), num(b)), &mut c), Ok(Value::Num(q)));
        assert_eq!(eval_expr(bin(num(a), math(MathToken::Modulo), num(b)), &mut c), Ok(Value::Num(r)));
        assert_eq!(q * b + r, a);
    }
}

#[test]
fn division_by_zero_fails() {
    let mut c = scoped();
    assert_eq!(eval_expr(bin(num(9), math(MathToken::Division), num(0)), &mut c), Err(EvalErr::DivisionByZero));
    assert_eq!(eval_expr(bin(num(9), math(MathToken::Modulo), num(0)), &mut c), Err(EvalErr::DivisionByZero));
}

#[test]
fn division_overflow_wraps() {
    let mut c = scoped();
    assert_eq!(
        eval_expr(bin(num(i32::MIN), math(MathToken::Division), num(-1)), &mut c),
        Ok(Value::Num(i32::MIN))
    );
    assert_eq!(eval_expr(bin(num(i32::MIN), math(MathToken::Modulo), num(-1)), &mut c), Ok(Value::Num(0)));
}

#[test]
fn arithmetic_and_comparisons() {
    let mut c = scoped();
    assert_eq!(eval_expr(bin(num(2), math(MathToken::Plus), num(3)), &mut c), Ok(Value::Num(5)));
    assert_eq!(eval_expr(bin(num(2), math(MathToken::Minus), num(3)), &mut c), Ok(Value::Num(-1)));
    assert_eq!(eval_expr(bin(num(4), math(MathToken::Multiply), num(-3)), &mut c), Ok(Value::Num(-12)));
    assert_eq!(eval_expr(bin(num(i32::MAX), math(MathToken::Plus), num(1)), &mut c), Ok(Value::Num(i32::MIN)));
    assert_eq!(eval_expr(bin(num(1), Op::RelOp(RelToken::Leq), num(2)), &mut c), Ok(Value::Bool(true)));
    assert_eq!(eval_expr(bin(num(1), Op::RelOp(RelToken::Geq), num(2)), &mut c), Ok(Value::Bool(false)));
    assert_eq!(eval_expr(bin(num(2), Op::RelOp(RelToken::Equal), num(2)), &mut c), Ok(Value::Bool(true)));
    assert_eq!(eval_expr(bin(num(2), Op::RelOp(RelToken::Neq), num(2)), &mut c), Ok(Value::Bool(false)));
}

#[test]
fn boolean_truth_tables() {
    let mut c = scoped();
    for a in [false, true] {
        for b in [false, true] {
            let and = eval_expr(bin(boolean(a), Op::BoolOp(BoolToken::And), boolean(b)), &mut c);
            let or = eval_expr(bin(boolean(a), Op::BoolOp(BoolToken::Or), boolean(b)), &mut c);
            let not = eval_expr(bin(boolean(a), Op::BoolOp(BoolToken::Not), boolean(b)), &mut c);
            let lt = eval_expr(bin(boolean(a), Op::RelOp(RelToken::Leq), boolean(b)), &mut c);
            let gt = eval_expr(bin(boolean(a), Op::RelOp(RelToken::Geq), boolean(b)), &mut c);
            assert_eq!(and, Ok(Value::Bool(a && b)));
            assert_eq!(or, Ok(Value::Bool(a || b)));
            assert_eq!(not, Ok(Value::Bool(!b)));
            assert_eq!(lt, Ok(Value::Bool(a < b)));
            assert_eq!(gt, Ok(Value::Bool(a > b)));
        }
    }
    assert_eq!(
        eval_expr(bin(boolean(false), Op::RelOp(RelToken::Leq), boolean(true)), &mut c),
        Ok(Value::Bool(true))
    );
}

#[test]
fn mixed_operands_and_wrong_operators() {
    let mut c = scoped();
    assert_eq!(eval_expr(bin(num(1), math(MathToken::Plus), boolean(true)), &mut c), Err(EvalErr::TypeMismatch));
    assert_eq!(eval_expr(bin(num(1), Op::BoolOp(BoolToken::And), num(2)), &mut c), Err(EvalErr::WrongOp));
    assert_eq!(eval_expr(bin(boolean(true), math(MathToken::Plus), boolean(true)), &mut c), Err(EvalErr::WrongOp));
}

#[test]
fn declare_then_compound_assign() {
    let mut c = scoped();
    assert_eq!(eval_expr(declare("x", Type::Int32, num(5)), &mut c), Ok(Value::Num(5)));
    assert_eq!(eval_expr(var_op("x", VarToken::PlusEq, num(3)), &mut c), Ok(Value::Num(8)));
    assert_eq!(c.get_val(&key("x")), Ok(Value::Num(8)));
    assert_eq!(eval_expr(var_op("x", VarToken::MinEq, num(10)), &mut c), Ok(Value::Num(-2)));
    assert_eq!(eval_expr(var_op("x", VarToken::MulEq, num(-4)), &mut c), Ok(Value::Num(8)));
}

#[test]
fn compound_assign_updates_outer_frame() {
    let mut c = scoped();
    eval_expr(declare("x", Type::Int32, num(5)), &mut c).unwrap();
    let block = vec![var_op("x", VarToken::PlusEq, num(3))];
    assert_eq!(eval_block(block, &mut c), Ok(Value::Num(8)));
    assert_eq!(c.depth(), 1);
    assert_eq!(c.get_val(&key("x")), Ok(Value::Num(8)));
}

#[test]
fn compound_assign_errors() {
    let mut c = scoped();
    assert_eq!(eval_expr(var_op("y", VarToken::PlusEq, num(1)), &mut c), Err(EvalErr::NotFound));
    eval_expr(declare("b", Type::Bool, boolean(true)), &mut c).unwrap();
    assert_eq!(eval_expr(var_op("b", VarToken::PlusEq, num(1)), &mut c), Err(EvalErr::TypeMismatch));
    eval_expr(declare("x", Type::Int32, num(1)), &mut c).unwrap();
    assert_eq!(eval_expr(var_op("x", VarToken::PlusEq, boolean(true)), &mut c), Err(EvalErr::TypeMismatch));
    let wrong = Expr::VarOp(var("x"), math(MathToken::Plus), num(1));
    assert_eq!(eval_expr(wrong, &mut c), Err(EvalErr::WrongOp));
}

#[test]
fn assign_to_undeclared_fails() {
    let mut c = scoped();
    assert_eq!(eval_expr(var_op("z", VarToken::Assign, num(1)), &mut c), Err(EvalErr::NotFound));
    assert_eq!(c.get_val(&key("z")), Err(EvalErr::NotFound));
}

#[test]
fn plain_assign_rebinds() {
    let mut c = scoped();
    eval_expr(declare("x", Type::Int32, num(1)), &mut c).unwrap();
    assert_eq!(eval_expr(var_op("x", VarToken::Assign, num(42)), &mut c), Ok(Value::Num(42)));
    assert_eq!(eval_expr(*var("x"), &mut c), Ok(Value::Num(42)));
}

#[test]
fn redeclare_overwrites_without_touching_outer() {
    let mut c = scoped();
    eval_expr(declare("x", Type::Int32, num(1)), &mut c).unwrap();
    c.new_scope();
    eval_expr(declare("x", Type::Int32, num(2)), &mut c).unwrap();
    eval_expr(declare("x", Type::Int32, num(3)), &mut c).unwrap();
    assert_eq!(c.get_val(&key("x")), Ok(Value::Num(3)));
    c.drop_current_scope();
    assert_eq!(c.get_val(&key("x")), Ok(Value::Num(1)));
}

#[test]
fn declared_type_is_checked() {
    let mut c = scoped();
    assert_eq!(eval_expr(declare("x", Type::Bool, num(1)), &mut c), Err(EvalErr::TypeMismatch));
    assert_eq!(eval_expr(declare("x", Type::Int32, boolean(true)), &mut c), Err(EvalErr::TypeMismatch));
    assert_eq!(c.get_val(&key("x")), Err(EvalErr::NotFound));
    assert_eq!(eval_expr(declare("b", Type::Bool, boolean(false)), &mut c), Ok(Value::Bool(false)));
}

#[test]
fn declaration_target_must_be_a_name() {
    let mut c = scoped();
    let e = Expr::Let(num(3), Type::Int32, num(1));
    assert_eq!(eval_expr(e, &mut c), Err(EvalErr::TypeMismatch));
}

#[test]
fn declare_without_scope_is_internal_error() {
    let mut c = Context::new();
    assert_eq!(eval_expr(declare("x", Type::Int32, num(1)), &mut c), Err(EvalErr::InternalError));
    assert_eq!(c.insert_to_current_scope(&key("x"), &Value::Num(1)), Err(EvalErr::InternalError));
}

#[test]
fn block_variable_is_local() {
    let mut c = scoped();
    let inner = vec![declare("y", Type::Int32, num(9)), *var("y")];
    let outer = vec![declare("x", Type::Int32, num(1)), Expr::If(boolean(true), inner)];
    let e = Expr::If(boolean(true), vec![declare("t", Type::Int32, num(0)), Expr::If(boolean(true), outer)]);
    assert_eq!(eval_expr(e, &mut c), Ok(Value::Num(9)));
    assert_eq!(c.depth(), 1);
    assert_eq!(c.get_val(&key("x")), Err(EvalErr::NotFound));
    assert_eq!(c.get_val(&key("y")), Err(EvalErr::NotFound));
}

#[test]
fn nested_block_sees_enclosing_declaration() {
    let mut c = scoped();
    let inner = vec![bin(var("x"), math(MathToken::Plus), num(1))];
    let block = vec![declare("x", Type::Int32, num(4)), Expr::If(boolean(true), inner)];
    assert_eq!(eval_block(block, &mut c), Ok(Value::Num(5)));
    assert_eq!(c.get_val(&key("x")), Err(EvalErr::NotFound));
}

#[test]
fn skipped_branch_has_no_effect() {
    let mut c = scoped();
    eval_expr(declare("x", Type::Int32, num(0)), &mut c).unwrap();
    let e = Expr::If(boolean(false), vec![var_op("x", VarToken::Assign, num(1))]);
    assert_eq!(eval_expr(e, &mut c), Ok(Value::Void));
    assert_eq!(c.get_val(&key("x")), Ok(Value::Num(0)));
    assert_eq!(c.depth(), 1);
}

#[test]
fn if_else_runs_one_branch() {
    let mut c = scoped();
    eval_expr(declare("x", Type::Int32, num(0)), &mut c).unwrap();
    let e = Expr::IfElse(boolean(false), vec![var_op("x", VarToken::Assign, num(1))], vec![
        var_op("x", VarToken::Assign, num(2)),
    ]);
    assert_eq!(eval_expr(e, &mut c), Ok(Value::Num(2)));
    assert_eq!(c.get_val(&key("x")), Ok(Value::Num(2)));
}

#[test]
fn non_boolean_condition_is_wrong_type() {
    let mut c = scoped();
    assert_eq!(eval_expr(Expr::If(num(1), vec![*num(2)]), &mut c), Err(EvalErr::WrongType));
    assert_eq!(eval_expr(Expr::While(num(1), vec![*num(2)]), &mut c), Err(EvalErr::WrongType));
}

#[test]
fn failing_block_releases_its_scope() {
    let mut c = scoped();
    let block = vec![
        declare("x", Type::Int32, num(1)),
        bin(num(1), math(MathToken::Division), num(0)),
        declare("y", Type::Int32, num(2)),
    ];
    assert_eq!(eval_block(block, &mut c), Err(EvalErr::DivisionByZero));
    assert_eq!(c.depth(), 1);
    assert_eq!(c.get_val(&key("x")), Err(EvalErr::NotFound));
}

#[test]
fn empty_block_has_no_result() {
    let mut c = scoped();
    assert_eq!(eval_block(vec![], &mut c), Err(EvalErr::NotFound));
    assert_eq!(c.depth(), 1);
}

#[test]
fn while_loop_counts() {
    let mut c = scoped();
    eval_expr(declare("i", Type::Int32, num(0)), &mut c).unwrap();
    eval_expr(declare("s", Type::Int32, num(0)), &mut c).unwrap();
    let cond = Box::new(bin(var("i"), Op::RelOp(RelToken::Leq), num(5)));
    let body = vec![var_op("s", VarToken::PlusEq, var("i")), var_op("i", VarToken::PlusEq, num(1))];
    assert_eq!(eval_expr(Expr::While(cond, body), &mut c), Ok(Value::Void));
    assert_eq!(c.get_val(&key("s")), Ok(Value::Num(10)));
    assert_eq!(c.get_val(&key("i")), Ok(Value::Num(5)));
    assert_eq!(c.depth(), 1);
}

#[test]
fn return_unwinds_blocks() {
    let mut c = scoped();
    eval_expr(declare("x", Type::Int32, num(0)), &mut c).unwrap();
    let inner = vec![Expr::Return(num(7)), var_op("x", VarToken::Assign, num(1))];
    let block = vec![Expr::If(boolean(true), inner), var_op("x", VarToken::Assign, num(2))];
    assert_eq!(eval_block(block, &mut c), Ok(Value::Num(7)));
    assert_eq!(c.get_val(&key("x")), Ok(Value::Num(0)));
    assert_eq!(c.depth(), 1);
}

#[test]
fn return_leaves_a_loop() {
    let mut c = scoped();
    let body = vec![Expr::Return(num(3))];
    assert_eq!(eval_expr(Expr::While(boolean(true), body), &mut c), Ok(Value::Num(3)));
}

#[test]
fn function_definition_is_not_implemented() {
    let mut c = scoped();
    let f = expr_interp::ast::Function::new("f".to_string(), vec![], vec![], Type::Void);
    assert_eq!(eval_expr(Expr::Func(f), &mut c), Err(EvalErr::NotImplemented));
}

#[test]
fn undeclared_variable_is_not_found() {
    let mut c = scoped();
    assert_eq!(eval_expr(*var("nope"), &mut c), Err(EvalErr::NotFound));
}
