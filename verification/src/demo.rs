//! The demo program used by the debugger panel and the headless smoke test.

use vstd::prelude::*;
use crate::lang::{bin, call, num, var, Expr, Function, Op, Program};

verus! {

/// `e` is the variable `name`.
pub open spec fn is_var(e: Expr, name: Seq<char>) -> bool {
    match e {
        Expr::Var(x) => x@ == name,
        _ => false,
    }
}

/// `e` is `left op right` over two variables.
pub open spec fn is_bin_vars(e: Expr, op: Op, left: Seq<char>, right: Seq<char>) -> bool {
    match e {
        Expr::Bin(o, a, b) => o == op && is_var(*a, left) && is_var(*b, right),
        _ => false,
    }
}

/// The demo program. It contains a deliberate bug: `rect_area` adds its
/// sides instead of multiplying them, so `area` and everything downstream is
/// wrong.
pub fn buggy_demo_program() -> (r: Program)
    ensures
        r.funcs@.len() == 1,
        r.funcs@[0].name@ == "rect_area"@,
        r.funcs@[0].params@.len() == 2,
        r.funcs@[0].params@[0]@ == "w"@,
        r.funcs@[0].params@[1]@ == "h"@,
        r.funcs@[0].body@.len() == 0,
        is_bin_vars(r.funcs@[0].ret, Op::Add, "w"@, "h"@),
        r.main@.len() == 4,
        r.main@[0].var@ == "w"@ && r.main@[0].expr == Expr::Num(3),
        r.main@[1].var@ == "h"@ && r.main@[1].expr == Expr::Num(4),
        r.main@[2].var@ == "area"@,
        match r.main@[2].expr {
            Expr::Call(f, args) => f@ == "rect_area"@ && args@.len() == 2 && is_var(args@[0], "w"@) && is_var(
                args@[1],
                "h"@,
            ),
            _ => false,
        },
        r.main@[3].var@ == "scaled"@,
        match r.main@[3].expr {
            Expr::Bin(o, a, b) => o == Op::Mul && is_var(*a, "area"@) && *b == Expr::Num(2),
            _ => false,
        },
{
    let mut params: Vec<String> = Vec::new();
    params.push("w".to_string());
    params.push("h".to_string());
    let mut args: Vec<Expr> = Vec::new();
    args.push(var("w"));
    args.push(var("h"));
    let p = Program::new().function(
        Function {
            name: "rect_area".to_string(),
            params,
            body: Vec::new(),
            // The bug: should be `w * h`.
            ret: bin(Op::Add, var("w"), var("h")),
        },
    );
    let p = p.stmt("w", num(3));
    let p = p.stmt("h", num(4));
    let p = p.stmt("area", call("rect_area", args));
    let p = p.stmt("scaled", bin(Op::Mul, var("area"), num(2)));
    p
}

} // verus!
