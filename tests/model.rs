use expr_interp::ast::{Expr, Function, Identifier, Param, Type, Value};
use expr_interp::context::{Context, ContextMethods, Scope};
use expr_interp::interpreter::EvalErr;

#[test]
fn conversions_are_fallible() {
    assert_eq!(Expr::Num(4).to_num(), Ok(4));
    assert_eq!(Expr::Bool(true).to_num(), Err(EvalErr::TypeMismatch));
    assert_eq!(Expr::Var("a".to_string()).to_name(), Ok("a".to_string()));
    assert_eq!(Expr::Num(1).to_name(), Err(EvalErr::TypeMismatch));
    assert_eq!(Expr::Bool(false).to_bool(), Ok(false));
    assert_eq!(Expr::Num(0).to_bool(), Err(EvalErr::TypeMismatch));
}

#[test]
fn constructors_keep_their_fields() {
    assert_eq!(Identifier::new("abc").0, "abc".to_string());
    let p = Param::new("n".to_string(), Type::Int32);
    assert_eq!(p.name, "n".to_string());
    assert_eq!(p.param_type, Type::Int32);
    let f = Function::new("f".to_string(), vec![p], vec![Expr::Num(1)], Type::Bool);
    assert_eq!(f.name, "f".to_string());
    assert_eq!(f.params.len(), 1);
    assert_eq!(f.block, vec![Expr::Num(1)]);
    assert_eq!(f.return_type, Type::Bool);
}

#[test]
fn scope_set_and_get() {
    let mut s = Scope::new();
    let a = "a".to_string();
    assert_eq!(s.get(&a), None);
    s.set(&a, Value::Num(1));
    s.set(&a, Value::Bool(true));
    assert_eq!(s.get(&a), Some(Value::Bool(true)));
}

#[test]
fn context_lookup_is_innermost_first() {
    let mut c = Context::new();
    c.new_scope();
    let x = Value::Var("x".to_string());
    c.insert_to_current_scope(&x, &Value::Num(1)).unwrap();
    c.new_scope();
    assert_eq!(c.get_val(&x), Ok(Value::Num(1)));
    c.insert_to_current_scope(&x, &Value::Num(2)).unwrap();
    assert_eq!(c.get_val(&x), Ok(Value::Num(2)));
    assert_eq!(c.update_var(&x, &Value::Num(3)), Ok(Value::Num(3)));
    c.drop_current_scope();
    assert_eq!(c.get_val(&x), Ok(Value::Num(1)));
    assert_eq!(c.depth(), 1);
}

#[test]
fn update_var_reaches_outer_frame() {
    let mut c = Context::new();
    c.new_scope();
    let x = Value::Var("x".to_string());
    c.insert_to_current_scope(&x, &Value::Num(1)).unwrap();
    c.new_scope();
    assert_eq!(c.update_var(&x, &Value::Num(5)), Ok(Value::Num(5)));
    c.drop_current_scope();
    assert_eq!(c.get_val(&x), Ok(Value::Num(5)));
}

#[test]
fn context_edge_cases() {
    let mut c = Context::new();
    c.drop_current_scope();
    assert_eq!(c.depth(), 0);
    let x = Value::Var("x".to_string());
    assert_eq!(c.get_val(&x), Err(EvalErr::NotFound));
    assert_eq!(c.update_var(&x, &Value::Num(1)), Err(EvalErr::NotFound));
    c.new_scope();
    assert_eq!(c.insert_to_current_scope(&Value::Num(3), &Value::Num(1)), Err(EvalErr::TypeMismatch));
    assert_eq!(c.get_val(&Value::Num(3)), Err(EvalErr::NotFound));
}
