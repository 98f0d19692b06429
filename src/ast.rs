//! Values and expression trees of the template language, and their evaluation.

use vstd::prelude::*;

use crate::table::{env_of, Vars};


verus! {

/// What an expression evaluates to, as a mathematical value.
pub enum Val {
    Str(Seq<char>),
    Bool(bool),
    Null,
}

/// An expression tree, as a mathematical value.
pub enum Ast {
    Var(Seq<char>),
    Lit(Val),
    Check(Box<Ast>, Box<Ast>, Box<Ast>),
    NullCheck(Box<Ast>, Box<Ast>),
    Equals(Box<Ast>, Box<Ast>),
    Add(Box<Ast>, Box<Ast>),
    Empty,
}

/// The text a value is written as: a string as it is, a boolean as `true` or
/// `false`, null as `null`.
pub open spec fn display(v: Val) -> Seq<char> {
    match v {
        Val::Str(s) => s,
        Val::Bool(b) => if b { seq!['t', 'r', 'u', 'e'] } else { seq!['f', 'a', 'l', 's', 'e'] },
        Val::Null => seq!['n', 'u', 'l', 'l'],
    }
}

/// Only `false` and null are falsy.
pub open spec fn truthy(v: Val) -> bool {
    !(v == Val::Bool(false) || v == Val::Null)
}

/// The value of `e` where `env` binds variable names to strings.
pub open spec fn eval(e: Ast, env: Map<Seq<char>, Seq<char>>) -> Val
    decreases e,
{
    match e {
        Ast::Var(name) => if env.contains_key(name) { Val::Str(env[name]) } else { Val::Null },
        Ast::Lit(v) => v,
        Ast::Check(c, l, r) => if truthy(eval(*c, env)) { eval(*l, env) } else { eval(*r, env) },
        Ast::NullCheck(l, r) => {
            let v = eval(*l, env);
            if v == Val::Null { eval(*r, env) } else { v }
        },
        Ast::Equals(l, r) => Val::Bool(eval(*l, env) == eval(*r, env)),
        Ast::Add(l, r) => Val::Str(display(eval(*l, env)) + display(eval(*r, env))),
        Ast::Empty => Val::Null,
    }
}

/// Whether two values are of the same kind: both strings, both booleans, or
/// both null.
pub open spec fn same_kind(a: Val, b: Val) -> bool {
    match (a, b) {
        (Val::Str(_), Val::Str(_)) => true,
        (Val::Bool(_), Val::Bool(_)) => true,
        (Val::Null, Val::Null) => true,
        _ => false,
    }
}

/// Comparing values of different kinds with `==` gives `false`.
pub proof fn lemma_equals_different_kinds(l: Ast, r: Ast, env: Map<Seq<char>, Seq<char>>)
    requires
        !same_kind(eval(l, env), eval(r, env)),
    ensures
        eval(Ast::Equals(Box::new(l), Box::new(r)), env) == Val::Bool(false),
{
}

/// `a ?? b` is `a` whenever `a` is not null, whatever `b` is.
pub proof fn lemma_null_check_keeps_left(a: Ast, b: Ast, env: Map<Seq<char>, Seq<char>>)
    requires
        eval(a, env) != Val::Null,
    ensures
        eval(Ast::NullCheck(Box::new(a), Box::new(b)), env) == eval(a, env),
{
}

/// `a ?? b ?? c`, which groups as `a ?? (b ?? c)`, is the first of `a`, `b`
/// that is not null, and `c` where both are null.
pub proof fn lemma_null_check_chain(a: Ast, b: Ast, c: Ast, env: Map<Seq<char>, Seq<char>>)
    ensures
        eval(Ast::NullCheck(Box::new(a), Box::new(Ast::NullCheck(Box::new(b), Box::new(c)))), env)
            == if eval(a, env) != Val::Null {
            eval(a, env)
        } else if eval(b, env) != Val::Null {
            eval(b, env)
        } else {
            eval(c, env)
        },
{
    let inner = Ast::NullCheck(Box::new(b), Box::new(c));
    assert(eval(inner, env) == if eval(b, env) != Val::Null {
        eval(b, env)
    } else {
        eval(c, env)
    });
}

/// `c ? l : r` is `r` exactly when `c` is `false` or null, and `l` otherwise;
/// in particular an empty string chooses `l`.
pub proof fn lemma_check_truthiness(c: Ast, l: Ast, r: Ast, env: Map<Seq<char>, Seq<char>>)
    ensures
        eval(Ast::Check(Box::new(c), Box::new(l), Box::new(r)), env) == if eval(c, env) == Val::Bool(
            false,
        ) || eval(c, env) == Val::Null {
            eval(r, env)
        } else {
            eval(l, env)
        },
        eval(c, env) == Val::Str(Seq::empty()) ==> eval(
            Ast::Check(Box::new(c), Box::new(l), Box::new(r)),
            env,
        ) == eval(l, env),
{
}

/// `l + r` is always a string: the text of `l` followed by the text of `r`.
pub proof fn lemma_add_is_text(l: Ast, r: Ast, env: Map<Seq<char>, Seq<char>>)
    ensures
        eval(Ast::Add(Box::new(l), Box::new(r)), env) == Val::Str(
            display(eval(l, env)) + display(eval(r, env)),
        ),
{
}

/// The value an expression returns.
pub enum Value {
    String(String),
    Bool(bool),
    Null,
}

impl View for Value {
    type V = Val;

    open spec fn view(&self) -> Val {
        match self {
            Value::String(s) => Val::Str(s@),
            Value::Bool(b) => Val::Bool(*b),
            Value::Null => Val::Null,
        }
    }
}

impl Clone for Value {
    fn clone(&self) -> (r: Value)
        ensures
            r@ == self@,
    {
        match self {
            Value::String(s) => Value::String(s.clone()),
            Value::Bool(b) => Value::Bool(*b),
            Value::Null => Value::Null,
        }
    }
}

impl PartialEq for Value {
    fn eq(&self, other: &Value) -> (r: bool)
        ensures
            r == (self@ == other@),
    {
        match (self, other) {
            (Value::String(a), Value::String(b)) => *a == *b,
            (Value::Bool(a), Value::Bool(b)) => *a == *b,
            (Value::Null, Value::Null) => true,
            _ => false,
        }
    }
}

impl vstd::std_specs::cmp::PartialEqSpecImpl for Value {
    open spec fn obeys_eq_spec() -> bool {
        true
    }

    open spec fn eq_spec(&self, other: &Value) -> bool {
        self@ == other@
    }
}

impl Value {
    /// The text the value is written as.
    pub fn text(&self) -> (r: String)
        ensures
            r@ == display(self@),
    {
        match self {
            Value::String(s) => s.clone(),
            Value::Bool(b) => {
                if *b {
                    let r = String::from_str("true");
                    proof {
                        reveal_strlit("true");
                    }
                    r
                } else {
                    let r = String::from_str("false");
                    proof {
                        reveal_strlit("false");
                    }
                    r
                }
            },
            Value::Null => {
                let r = String::from_str("null");
                proof {
                    reveal_strlit("null");
                }
                r
            },
        }
    }
}

/// An expression tree; each node owns its children.
pub enum Expr {
    Var(String),
    Lit(Value),
    Check(Box<Expr>, Box<Expr>, Box<Expr>),
    NullCheck(Box<Expr>, Box<Expr>),
    Equals(Box<Expr>, Box<Expr>),
    Add(Box<Expr>, Box<Expr>),
    Empty,
}

/// The tree that an expression stands for.
pub open spec fn ast_of(e: &Expr) -> Ast
    decreases e,
{
    match e {
        Expr::Var(name) => Ast::Var(name@),
        Expr::Lit(v) => Ast::Lit(v@),
        Expr::Check(c, l, r) => Ast::Check(Box::new(ast_of(c)), Box::new(ast_of(l)), Box::new(ast_of(r))),
        Expr::NullCheck(l, r) => Ast::NullCheck(Box::new(ast_of(l)), Box::new(ast_of(r))),
        Expr::Equals(l, r) => Ast::Equals(Box::new(ast_of(l)), Box::new(ast_of(r))),
        Expr::Add(l, r) => Ast::Add(Box::new(ast_of(l)), Box::new(ast_of(r))),
        Expr::Empty => Ast::Empty,
    }
}

impl View for Expr {
    type V = Ast;

    open spec fn view(&self) -> Ast {
        ast_of(self)
    }
}

impl Expr {
    /// Evaluates the expression with the variables `vars`. The right side of
    /// `??` is evaluated only when the left side is null, and only the chosen
    /// branch of `?:` is evaluated.
    pub fn eval(&self, vars: &Vars) -> (r: Value)
        ensures
            r@ == eval(self@, env_of(vars@)),
        decreases self,
    {
        match self {
            Expr::Var(name) => match vars.get(name.as_str()) {
                Some(v) => Value::String(v.clone()),
                None => Value::Null,
            },
            Expr::Lit(v) => v.clone(),
            Expr::Check(c, l, r) => {
                let cond = c.eval(vars);
                match cond {
                    Value::Bool(false) | Value::Null => r.eval(vars),
                    _ => l.eval(vars),
                }
            },
            Expr::NullCheck(l, r) => {
                let res = l.eval(vars);
                match res {
                    Value::Null => r.eval(vars),
                    _ => res,
                }
            },
            Expr::Equals(l, r) => {
                let left = l.eval(vars);
                let right = r.eval(vars);
                Value::Bool(left == right)
            },
            Expr::Add(l, r) => {
                let left = l.eval(vars).text();
                let right = r.eval(vars).text();
                Value::String(left.concat(right.as_str()))
            },
            Expr::Empty => Value::Null,
        }
    }
}

} // verus!
