//! A tiny toy language the time-travel debugger executes: integer variables,
//! arithmetic and comparison, `if`, and (recursive) function calls, given as
//! an embedded syntax tree.

use vstd::prelude::*;

verus! {

/// Runtime value. Integers only; booleans are encoded as 0/1.
pub type Scalar = i64;

/// Binary operators.
#[derive(Debug, Clone, Copy, PartialEq, Eq, Structural)]
pub enum Op {
    Add,
    Sub,
    Mul,
    Div,
    Lt,
    Gt,
    Eq,
}

/// The source spelling of an operator.
pub open spec fn op_symbol(op: Op) -> Seq<char> {
    match op {
        Op::Add => seq!['+'],
        Op::Sub => seq!['-'],
        Op::Mul => seq!['*'],
        Op::Div => seq!['/'],
        Op::Lt => seq!['<'],
        Op::Gt => seq!['>'],
        Op::Eq => seq!['=', '='],
    }
}

impl Op {
    /// The source spelling of this operator.
    pub fn symbol(self) -> (r: &'static str)
        ensures
            r@ == op_symbol(self),
    {
        match self {
            Op::Add => {
                proof {
                    reveal_strlit("+");
                }
                "+"
            },
            Op::Sub => {
                proof {
                    reveal_strlit("-");
                }
                "-"
            },
            Op::Mul => {
                proof {
                    reveal_strlit("*");
                }
                "*"
            },
            Op::Div => {
                proof {
                    reveal_strlit("/");
                }
                "/"
            },
            Op::Lt => {
                proof {
                    reveal_strlit("<");
                }
                "<"
            },
            Op::Gt => {
                proof {
                    reveal_strlit(">");
                }
                ">"
            },
            Op::Eq => {
                proof {
                    reveal_strlit("==");
                }
                "=="
            },
        }
    }
}

/// An expression.
#[derive(Debug)]
pub enum Expr {
    Num(Scalar),
    Var(String),
    Bin(Op, Box<Expr>, Box<Expr>),
    /// `if cond != 0 then a else b`.
    If(Box<Expr>, Box<Expr>, Box<Expr>),
    Call(String, Vec<Expr>),
}

/// A top-level / function-body statement: bind (or rebind) a variable.
#[derive(Debug)]
pub struct Stmt {
    pub var: String,
    pub expr: Expr,
}

/// A function: parameters, a body of statements, and a return expression.
#[derive(Debug)]
pub struct Function {
    pub name: String,
    pub params: Vec<String>,
    pub body: Vec<Stmt>,
    /// The function's return expression, evaluated after `body`.
    pub ret: Expr,
}

/// A whole program: named functions plus a `main` statement sequence.
/// A call resolves to the first function of `funcs` with the callee's name;
/// [`Program::function`] keeps names unique.
#[derive(Debug)]
pub struct Program {
    pub funcs: Vec<Function>,
    pub main: Vec<Stmt>,
}

/// Position of the first function named `name`, if any.
pub open spec fn find_function(funcs: Seq<Function>, name: Seq<char>) -> Option<int>
    decreases funcs.len(),
{
    if funcs.len() == 0 {
        None
    } else {
        match find_function(funcs.drop_last(), name) {
            Some(i) => Some(i),
            None => if funcs.last().name@ == name {
                Some(funcs.len() - 1)
            } else {
                None
            },
        }
    }
}

/// The function a call to `name` runs, if any.
pub open spec fn lookup(funcs: Seq<Function>, name: Seq<char>) -> Option<Function> {
    match find_function(funcs, name) {
        Some(i) => Some(funcs[i]),
        None => None,
    }
}

/// `find_function` finds exactly the first function of that name.
pub proof fn lemma_find_function(funcs: Seq<Function>, name: Seq<char>)
    ensures
        find_function(funcs, name) matches Some(i) ==> 0 <= i < funcs.len() && funcs[i].name@ == name
            && forall|j: int| 0 <= j < i ==> funcs[j].name@ != name,
        find_function(funcs, name) is None ==> forall|j: int| 0 <= j < funcs.len() ==> funcs[j].name@ != name,
    decreases funcs.len(),
{
    if funcs.len() > 0 {
        let prefix = funcs.drop_last();
        lemma_find_function(prefix, name);
        assert forall|j: int| 0 <= j < prefix.len() implies prefix[j] == funcs[j] by {}
    }
}

pub proof fn lemma_find_function_exact(funcs: Seq<Function>, name: Seq<char>, i: int)
    requires
        0 <= i < funcs.len(),
        funcs[i].name@ == name,
        forall|j: int| 0 <= j < i ==> funcs[j].name@ != name,
    ensures
        find_function(funcs, name) == Some(i),
{
    lemma_find_function(funcs, name);
}

impl Program {
    /// An empty program.
    pub fn new() -> (r: Self)
        ensures
            r.funcs@.len() == 0,
            r.main@.len() == 0,
    {
        Program { funcs: Vec::new(), main: Vec::new() }
    }

    /// Adds `f`, replacing any function of the same name.
    pub fn function(self, f: Function) -> (r: Self)
        ensures
            r.main@ == self.main@,
            find_function(self.funcs@, f.name@) is None ==> r.funcs@ == self.funcs@.push(f),
            find_function(self.funcs@, f.name@) matches Some(i) ==> r.funcs@ == self.funcs@.update(i, f),
            forall|n: Seq<char>|
                #[trigger] lookup(r.funcs@, n) == if n == f.name@ {
                    Some(f)
                } else {
                    lookup(self.funcs@, n)
                },
    {
        let mut p = self;
        let ghost old_funcs = p.funcs@;
        let ghost fname = f.name@;
        let mut i: usize = 0;
        while i < p.funcs.len() && !crate::strmap::str_eq(p.funcs[i].name.as_str(), f.name.as_str())
            invariant
                p.funcs@ == old_funcs,
                fname == f.name@,
                i <= old_funcs.len(),
                forall|j: int| 0 <= j < i ==> old_funcs[j].name@ != fname,
            decreases old_funcs.len() - i,
        {
            i = i + 1;
        }
        proof {
            lemma_find_function(old_funcs, fname);
        }
        if i < p.funcs.len() {
            p.funcs.set(i, f);
            proof {
                lemma_find_function_exact(old_funcs, fname, i as int);
                let nf = p.funcs@;
                assert forall|n: Seq<char>|
                    #[trigger] lookup(nf, n) == if n == fname { Some(nf[i as int]) } else { lookup(old_funcs, n) } by {
                    lemma_find_function(nf, n);
                    lemma_find_function(old_funcs, n);
                    if n == fname {
                        lemma_find_function_exact(nf, n, i as int);
                    } else {
                        match find_function(old_funcs, n) {
                            Some(k) => {
                                lemma_find_function_exact(nf, n, k);
                            },
                            None => {
                                assert forall|j: int| 0 <= j < nf.len() implies nf[j].name@ != n by {
                                    if j != i {
                                        assert(nf[j] == old_funcs[j]);
                                    }
                                }
                                if find_function(nf, n) is Some {
                                    let k = find_function(nf, n)->0;
                                    assert(nf[k].name@ == n);
                                }
                            },
                        }
                    }
                }
            }
        } else {
            p.funcs.push(f);
            proof {
                let nf = p.funcs@;
                assert forall|n: Seq<char>|
                    #[trigger] lookup(nf, n) == if n == fname { Some(nf[i as int]) } else { lookup(old_funcs, n) } by {
                    assert(nf.drop_last() =~= old_funcs);
                    lemma_find_function(old_funcs, n);
                }
            }
        }
        p
    }

    /// Appends the statement `var = expr` to `main`.
    pub fn stmt(self, var: &str, expr: Expr) -> (r: Self)
        ensures
            r.funcs@ == self.funcs@,
            r.main@.len() == self.main@.len() + 1,
            r.main@.drop_last() == self.main@,
            r.main@.last().var@ == var@,
            r.main@.last().expr == expr,
    {
        let mut p = self;
        p.main.push(Stmt { var: var.to_string(), expr });
        p
    }
}

/// `Expr::Num(n)`.
pub fn num(n: Scalar) -> (r: Expr)
    ensures
        r == Expr::Num(n),
{
    Expr::Num(n)
}

/// `Expr::Var(name)`.
pub fn var(name: &str) -> (r: Expr)
    ensures
        r matches Expr::Var(v) && v@ == name@,
{
    Expr::Var(name.to_string())
}

/// `Expr::Bin(op, a, b)`.
pub fn bin(op: Op, a: Expr, b: Expr) -> (r: Expr)
    ensures
        r == Expr::Bin(op, Box::new(a), Box::new(b)),
{
    Expr::Bin(op, Box::new(a), Box::new(b))
}

/// `Expr::Call(name, args)`.
pub fn call(name: &str, args: Vec<Expr>) -> (r: Expr)
    ensures
        r matches Expr::Call(n, a) && n@ == name@ && a == args,
{
    Expr::Call(name.to_string(), args)
}

/// `Expr::If(cond, then, els)`.
pub fn if_(cond: Expr, then: Expr, els: Expr) -> (r: Expr)
    ensures
        r == Expr::If(Box::new(cond), Box::new(then), Box::new(els)),
{
    Expr::If(Box::new(cond), Box::new(then), Box::new(els))
}

} // verus!
