use vstd::prelude::*;
use crate::interpreter::EvalErr;

verus! {

/// A variable name as it appears in the syntax tree.
#[derive(PartialEq, Eq, Debug)]
pub struct Identifier(pub String);

impl Identifier {
    pub fn new(name: &str) -> (r: Identifier)
        ensures
            r.0@ == name@,
    {
        Identifier(name.to_owned())
    }
}

#[derive(PartialEq, Eq, Debug, Clone, Copy, Structural)]
pub enum MathToken {
    Minus,
    Plus,
    Multiply,
    Division,
    Modulo,
}

#[derive(PartialEq, Eq, Debug, Clone, Copy, Structural)]
pub enum BoolToken {
    And,
    Or,
    /// Unary negation; it applies to the right-hand operand of a binary node.
    Not,
}

/// Relational operators: `Leq` is strictly-less (`<`), `Geq` strictly-greater (`>`).
#[derive(PartialEq, Eq, Debug, Clone, Copy, Structural)]
pub enum RelToken {
    Leq,
    Geq,
    Equal,
    Neq,
}

#[derive(PartialEq, Eq, Debug, Clone, Copy, Structural)]
pub enum VarToken {
    Assign,
    PlusEq,
    MinEq,
    MulEq,
}

#[derive(PartialEq, Eq, Debug, Clone, Copy, Structural)]
pub enum Op {
    MathOp(MathToken),
    BoolOp(BoolToken),
    RelOp(RelToken),
    VarOp(VarToken),
}

#[derive(PartialEq, Eq, Debug, Clone, Copy, Structural)]
pub enum BoolState {
    True,
    False,
}

#[derive(PartialEq, Eq, Debug, Clone, Copy, Structural)]
pub enum Type {
    Int32,
    Bool,
    /// The absent return value of a function.
    Void,
}

#[derive(PartialEq, Eq, Debug)]
pub struct Param {
    pub name: String,
    pub param_type: Type,
}

impl Param {
    pub fn new(name: String, param_type: Type) -> (r: Param)
        ensures
            r.name == name,
            r.param_type == param_type,
    {
        Param { name, param_type }
    }
}

#[derive(PartialEq, Eq, Debug)]
pub struct Function {
    pub name: String,
    pub params: Vec<Param>,
    pub block: Vec<Expr>,
    pub return_type: Type,
}

impl Function {
    pub fn new(name: String, params: Vec<Param>, block: Vec<Expr>, return_type: Type) -> (r:
        Function)
        ensures
            r.name == name,
            r.params == params,
            r.block == block,
            r.return_type == return_type,
    {
        Function { name, params, block, return_type }
    }
}

/// A runtime value. `Var` only serves as the shape of a lookup key and is never
/// stored as a binding's value; `Void` is the explicit absent result.
#[derive(PartialEq, Eq, Debug)]
pub enum Value {
    Num(i32),
    Var(String),
    Bool(bool),
    Void,
}

/// A value as it may be stored in a scope: a number or a boolean.
pub open spec fn is_storable(v: Value) -> bool {
    v is Num || v is Bool
}

/// Does the runtime kind of `v` agree with the declared type `t`?
pub open spec fn has_type(v: Value, t: Type) -> bool {
    match t {
        Type::Int32 => v is Num,
        Type::Bool => v is Bool,
        Type::Void => v is Void,
    }
}

/// An exact copy of a value.
pub fn copy_value(v: &Value) -> (r: Value)
    ensures
        r == *v,
{
    match v {
        Value::Num(n) => Value::Num(*n),
        Value::Var(s) => Value::Var(s.clone()),
        Value::Bool(b) => Value::Bool(*b),
        Value::Void => Value::Void,
    }
}

/// A node of the syntax tree; each composite node owns its children.
#[derive(PartialEq, Eq, Debug)]
pub enum Expr {
    BinOp(Box<Expr>, Op, Box<Expr>),
    Num(i32),
    Var(String),
    Bool(bool),
    /// Declaration: target name, declared type, initializer.
    Let(Box<Expr>, Type, Box<Expr>),
    /// Assignment or compound assignment: target name, operator, right-hand side.
    VarOp(Box<Expr>, Op, Box<Expr>),
    If(Box<Expr>, Vec<Expr>),
    /// Condition, then-block, else-block.
    IfElse(Box<Expr>, Vec<Expr>, Vec<Expr>),
    While(Box<Expr>, Vec<Expr>),
    Func(Function),
    Return(Box<Expr>),
}

/// Whether a value may be stored in a scope.
pub fn storable(v: &Value) -> (r: bool)
    ensures
        r == is_storable(*v),
{
    match v {
        Value::Num(_) | Value::Bool(_) => true,
        _ => false,
    }
}

/// Whether the runtime kind of `v` agrees with the declared type `t`.
pub fn value_has_type(v: &Value, t: Type) -> (r: bool)
    ensures
        r == has_type(*v, t),
{
    match (v, t) {
        (Value::Num(_), Type::Int32) => true,
        (Value::Bool(_), Type::Bool) => true,
        (Value::Void, Type::Void) => true,
        _ => false,
    }
}

impl Expr {
    /// The integer of a literal integer node.
    pub fn to_num(&self) -> (r: Result<i32, EvalErr>)
        ensures
            r == (match *self {
                Expr::Num(n) => Ok(n),
                _ => Err(EvalErr::TypeMismatch),
            }),
    {
        match self {
            Expr::Num(n) => Ok(*n),
            _ => Err(EvalErr::TypeMismatch),
        }
    }

    /// The name of a variable node.
    pub fn to_name(&self) -> (r: Result<String, EvalErr>)
        ensures
            match *self {
                Expr::Var(s) => r == Ok::<String, EvalErr>(s),
                _ => r == Err::<String, EvalErr>(EvalErr::TypeMismatch),
            },
    {
        match self {
            Expr::Var(s) => Ok(s.clone()),
            _ => Err(EvalErr::TypeMismatch),
        }
    }

    /// The boolean of a literal boolean node.
    pub fn to_bool(&self) -> (r: Result<bool, EvalErr>)
        ensures
            r == (match *self {
                Expr::Bool(b) => Ok(b),
                _ => Err(EvalErr::TypeMismatch),
            }),
    {
        match self {
            Expr::Bool(b) => Ok(*b),
            _ => Err(EvalErr::TypeMismatch),
        }
    }
}

} // verus!
