//! The recording interpreter.
//!
//! Executes a [`Program`]'s `main` statement by statement, snapshotting the
//! environment after each into a [`Trace`]. Supports a single intervention
//! (the "what-if": force a variable to a value at a chosen step and let the
//! consequences propagate), the primitive the branching timeline is built on.
//!
//! The semantics is given by [`eval_expr`] with a call-depth budget (`fuel`):
//! a result of `None` stands for a run that faults, either by arithmetic
//! overflow or by never returning. The executable functions require a budget
//! under which the run does not fault, and then compute exactly the
//! mathematical result, which does not depend on the budget chosen.

use vstd::prelude::*;
use crate::lang::{find_function, lemma_find_function, lemma_find_function_exact, lookup, op_symbol, Expr, Function, Op, Program, Stmt, Scalar};
use crate::strmap::{str_eq, StrMap};
use crate::text::{int_decimal, push_char, push_i64_decimal, push_str};
use crate::trace::{Env, Step, StepView, Trace};

verus! {

/// How many times each function was executed during a run
/// (`function name -> invocation count`).
pub type CallCounts = StrMap<usize>;

/// An optional what-if override applied during a run.
#[derive(Debug)]
pub struct Intervention {
    /// After this step index executes, force `var` to `value`.
    pub at_step: usize,
    pub var: String,
    pub value: Scalar,
}

/// The mathematical content of an intervention.
pub struct InterventionView {
    pub at_step: nat,
    pub var: Seq<char>,
    pub value: Scalar,
}

impl Intervention {
    pub open spec fn view(self) -> InterventionView {
        InterventionView { at_step: self.at_step as nat, var: self.var@, value: self.value }
    }
}

/// Integer division rounding toward zero.
pub open spec fn trunc_div(x: int, y: int) -> int {
    let ax = if x < 0 { -x } else { x };
    let ay = if y < 0 { -y } else { y };
    if (x < 0) == (y < 0) {
        ax / ay
    } else {
        -(ax / ay)
    }
}

/// The mathematical value of `x op y`; division by zero yields 0.
pub open spec fn op_value(op: Op, x: int, y: int) -> int {
    match op {
        Op::Add => x + y,
        Op::Sub => x - y,
        Op::Mul => x * y,
        Op::Div => if y == 0 { 0 } else { trunc_div(x, y) },
        Op::Lt => if x < y { 1 } else { 0 },
        Op::Gt => if x > y { 1 } else { 0 },
        Op::Eq => if x == y { 1 } else { 0 },
    }
}

/// `x op y` on runtime values; `None` when the result overflows.
pub open spec fn apply_op_spec(op: Op, x: Scalar, y: Scalar) -> Option<Scalar> {
    let r = op_value(op, x as int, y as int);
    if i64::MIN <= r <= i64::MAX {
        Some(r as i64)
    } else {
        None
    }
}

/// Evaluation of `e` in `env` with call-depth budget `fuel`: the value and
/// the names of the functions called, in execution order.
pub open spec fn eval_expr(p: Program, e: Expr, env: Map<Seq<char>, Scalar>, fuel: nat) -> Option<
    (Scalar, Seq<Seq<char>>),
>
    decreases fuel, 0int, e, 0int,
{
    match e {
        Expr::Num(n) => Some((n, seq![])),
        Expr::Var(x) => Some(
            (
                if env.contains_key(x@) {
                    env[x@]
                } else {
                    0
                },
                seq![],
            ),
        ),
        Expr::Bin(op, a, b) => match eval_expr(p, *a, env, fuel) {
            Some((x, la)) => match eval_expr(p, *b, env, fuel) {
                Some((y, lb)) => match apply_op_spec(op, x, y) {
                    Some(v) => Some((v, la + lb)),
                    None => None,
                },
                None => None,
            },
            None => None,
        },
        Expr::If(c, t, f) => match eval_expr(p, *c, env, fuel) {
            Some((cv, lc)) => match (if cv != 0 {
                eval_expr(p, *t, env, fuel)
            } else {
                eval_expr(p, *f, env, fuel)
            }) {
                Some((v, l)) => Some((v, lc + l)),
                None => None,
            },
            None => None,
        },
        Expr::Call(name, args) => match lookup(p.funcs@, name@) {
            None => Some((0, seq![])),
            Some(func) => if fuel == 0 {
                None
            } else {
                match bind_args(p, func.params@, args, 0, env, fuel, Map::empty()) {
                    Some((scope, la)) => match run_body(p, func.body, 0, scope, (fuel - 1) as nat) {
                        Some((scope2, lb)) => match eval_expr(p, func.ret, scope2, (fuel - 1) as nat) {
                            Some((v, lr)) => Some((v, seq![name@] + la + lb + lr)),
                            None => None,
                        },
                        None => None,
                    },
                    None => None,
                }
            },
        },
    }
}

/// Binds parameters `i..` to the values of arguments `i..` (pairwise, up to
/// the shorter list), evaluated in the caller's environment.
pub open spec fn bind_args(
    p: Program,
    params: Seq<String>,
    args: Vec<Expr>,
    i: int,
    env: Map<Seq<char>, Scalar>,
    fuel: nat,
    scope: Map<Seq<char>, Scalar>,
) -> Option<(Map<Seq<char>, Scalar>, Seq<Seq<char>>)>
    decreases fuel, 0int, args, args@.len() - i,
{
    if i < 0 || i >= args@.len() || i >= params.len() {
        Some((scope, seq![]))
    } else {
        match eval_expr(p, args@[i], env, fuel) {
            Some((v, l)) => match bind_args(p, params, args, i + 1, env, fuel, scope.insert(params[i]@, v)) {
                Some((s, rest)) => Some((s, l + rest)),
                None => None,
            },
            None => None,
        }
    }
}

/// Runs statements `k..` of a function body in `scope`.
pub open spec fn run_body(p: Program, body: Vec<Stmt>, k: int, scope: Map<Seq<char>, Scalar>, fuel: nat) -> Option<
    (Map<Seq<char>, Scalar>, Seq<Seq<char>>),
>
    decreases fuel, 1int, body, body@.len() - k,
{
    if k < 0 || k >= body@.len() {
        Some((scope, seq![]))
    } else {
        match eval_expr(p, body@[k].expr, scope, fuel) {
            Some((v, l)) => match run_body(p, body, k + 1, scope.insert(body@[k].var@, v), fuel) {
                Some((s, rest)) => Some((s, l + rest)),
                None => None,
            },
            None => None,
        }
    }
}

/// Number of occurrences of each name in a call log.
pub open spec fn tally(log: Seq<Seq<char>>) -> Map<Seq<char>, nat>
    decreases log.len(),
{
    if log.len() == 0 {
        Map::empty()
    } else {
        let m = tally(log.drop_last());
        let k = log.last();
        m.insert(k, if m.contains_key(k) { m[k] + 1 } else { 1 })
    }
}

/// The executable counters hold exactly the tallied counts.
pub open spec fn counts_match(c: Map<Seq<char>, usize>, t: Map<Seq<char>, nat>) -> bool {
    &&& c.dom() == t.dom()
    &&& forall|k: Seq<char>| #[trigger] c.contains_key(k) ==> c[k] as nat == t[k]
}

proof fn lemma_tally_bound(log: Seq<Seq<char>>, k: Seq<char>)
    ensures
        tally(log).contains_key(k) ==> tally(log)[k] <= log.len(),
    decreases log.len(),
{
    if log.len() > 0 {
        lemma_tally_bound(log.drop_last(), k);
    }
}

/// Rendering of an expression back to source, as shown in step descriptions.
pub open spec fn render_expr(e: Expr) -> Seq<char>
    decreases e, 0int,
{
    match e {
        Expr::Num(n) => int_decimal(n as int),
        Expr::Var(x) => x@,
        Expr::Bin(op, a, b) => render_expr(*a) + seq![' '] + op_symbol(op) + seq![' '] + render_expr(*b),
        Expr::If(c, t, f) => "if "@ + render_expr(*c) + " then "@ + render_expr(*t) + " else "@
            + render_expr(*f),
        Expr::Call(name, args) => name@ + seq!['('] + render_args(args, 0) + seq![')'],
    }
}

/// Rendering of arguments `i..`, separated by `", "`.
pub open spec fn render_args(args: Vec<Expr>, i: int) -> Seq<char>
    decreases args, args@.len() - i,
{
    if i < 0 || i >= args@.len() {
        seq![]
    } else if i == args@.len() - 1 {
        render_expr(args@[i])
    } else {
        render_expr(args@[i]) + ", "@ + render_args(args, i + 1)
    }
}

/// The description of a recorded step.
pub open spec fn describe(var: Seq<char>, e: Expr, value: Scalar, intervened: bool) -> Seq<char> {
    var + " = "@ + render_expr(e) + "  => "@ + int_decimal(value as int) + if intervened {
        "  [what-if]"@
    } else {
        seq![]
    }
}

/// Whether the intervention applies to statement `k` binding `var`.
pub open spec fn hits(iv: Option<InterventionView>, k: int, var: Seq<char>) -> bool {
    match iv {
        Some(i) => i.at_step == k && i.var == var,
        None => false,
    }
}

/// The first `k` steps of `main`: the environment after them, the steps
/// recorded, and the call log.
pub open spec fn run_steps(p: Program, iv: Option<InterventionView>, k: nat, fuel: nat) -> Option<
    (Map<Seq<char>, Scalar>, Seq<StepView>, Seq<Seq<char>>),
>
    decreases k,
{
    if k == 0 {
        Some((Map::empty(), seq![], seq![]))
    } else {
        match run_steps(p, iv, (k - 1) as nat, fuel) {
            None => None,
            Some((env, steps, log)) => {
                let stmt = p.main@[k - 1];
                match eval_expr(p, stmt.expr, env, fuel) {
                    None => None,
                    Some((v, l)) => {
                        let hit = hits(iv, k - 1, stmt.var@);
                        let value = if hit { iv->0.value } else { v };
                        let env2 = env.insert(stmt.var@, value);
                        Some(
                            (
                                env2,
                                steps.push(
                                    StepView {
                                        seq: (k - 1) as nat,
                                        var: stmt.var@,
                                        description: describe(stmt.var@, stmt.expr, value, hit),
                                        env: env2,
                                        intervened: hit,
                                    },
                                ),
                                log + l,
                            ),
                        )
                    },
                }
            },
        }
    }
}

/// The whole of `main` runs without fault under `fuel`, and its call
/// counters fit in `usize`.
pub open spec fn runs_ok(p: Program, iv: Option<InterventionView>, fuel: nat) -> bool {
    run_steps(p, iv, p.main@.len(), fuel) matches Some((_, _, log)) && log.len() <= usize::MAX
}

/// Some call-depth budget lets the run finish without fault.
pub open spec fn terminates(p: Program, iv: Option<InterventionView>) -> bool {
    exists|fuel: nat| runs_ok(p, iv, fuel)
}

/// A budget under which the run finishes.
pub open spec fn run_fuel(p: Program, iv: Option<InterventionView>) -> nat {
    choose|fuel: nat| runs_ok(p, iv, fuel)
}

/// The trace a run records.
pub open spec fn run_trace(p: Program, iv: Option<InterventionView>) -> Seq<StepView> {
    run_steps(p, iv, p.main@.len(), run_fuel(p, iv)).unwrap().1
}

/// The call counts of a run.
pub open spec fn run_counts(p: Program, iv: Option<InterventionView>) -> Map<Seq<char>, nat> {
    tally(run_steps(p, iv, p.main@.len(), run_fuel(p, iv)).unwrap().2)
}

/// An optional intervention, taken by its view.
pub open spec fn iv_view(iv: Option<&Intervention>) -> Option<InterventionView> {
    match iv {
        Some(i) => Some(i.view()),
        None => None,
    }
}

/// Runs programs and records their traces.
pub struct Interpreter<'a> {
    program: &'a Program,
}


/// Running `k` steps is a prefix of running `n` steps.
pub proof fn lemma_steps_prefix_exact(p: Program, iv: Option<InterventionView>, k: nat, n: nat, fuel: nat)
    requires
        k <= n,
        run_steps(p, iv, n, fuel) is Some,
    ensures
        run_steps(p, iv, k, fuel) is Some,
        run_steps(p, iv, k, fuel).unwrap().1 == run_steps(p, iv, n, fuel).unwrap().1.take(k as int),
        run_steps(p, iv, n, fuel).unwrap().1.len() == n,
    decreases n,
{
    if k < n {
        lemma_steps_prefix_exact(p, iv, k, (n - 1) as nat, fuel);
        let s = run_steps(p, iv, n, fuel).unwrap().1;
        assert(s.drop_last() == run_steps(p, iv, (n - 1) as nat, fuel).unwrap().1);
        assert(s.take(k as int) =~= s.drop_last().take(k as int));
    } else if n > 0 {
        lemma_steps_prefix_exact(p, iv, (n - 1) as nat, (n - 1) as nat, fuel);
        assert(run_steps(p, iv, n, fuel).unwrap().1.take(n as int) =~= run_steps(p, iv, n, fuel).unwrap().1);
    } else {
        assert(run_steps(p, iv, n, fuel).unwrap().1.take(0) =~= run_steps(p, iv, n, fuel).unwrap().1);
    }
}

/// At the intervened step the forced value is bound.
pub proof fn lemma_intervened_env(p: Program, iv: InterventionView, fuel: nat)
    requires
        runs_ok(p, Some(iv), fuel),
        fuel == run_fuel(p, Some(iv)),
        iv.at_step < p.main@.len(),
        p.main@[iv.at_step as int].var@ == iv.var,
    ensures
        run_trace(p, Some(iv))[iv.at_step as int].env.contains_key(iv.var),
        run_trace(p, Some(iv))[iv.at_step as int].env[iv.var] == iv.value,
{
    let n = p.main@.len();
    let k = (iv.at_step + 1) as nat;
    lemma_steps_prefix_exact(p, Some(iv), k, n, fuel);
    lemma_steps_prefix_exact(p, Some(iv), (k - 1) as nat, (k - 1) as nat, fuel);
    let sk = run_steps(p, Some(iv), k, fuel).unwrap().1;
    assert(run_trace(p, Some(iv)) == run_steps(p, Some(iv), n, fuel).unwrap().1);
    assert(hits(Some(iv), iv.at_step as int, p.main@[iv.at_step as int].var@));
    assert(sk[iv.at_step as int] == run_trace(p, Some(iv))[iv.at_step as int]);
}

/// Without an intervention no recorded step is marked intervened.
proof fn lemma_plain_steps(p: Program, k: nat, fuel: nat)
    requires
        run_steps(p, None, k, fuel) is Some,
    ensures
        forall|i: int|
            0 <= i < run_steps(p, None, k, fuel).unwrap().1.len() ==> !(
            #[trigger] run_steps(p, None, k, fuel).unwrap().1[i]).intervened,
    decreases k,
{
    if k > 0 {
        lemma_plain_steps(p, (k - 1) as nat, fuel);
    }
}

/// A run without an intervention marks no step as intervened.
pub proof fn law_plain_run_has_no_intervened_step(p: Program)
    requires
        terminates(p, None),
    ensures
        forall|i: int| 0 <= i < run_trace(p, None).len() ==> !(#[trigger] run_trace(p, None)[i]).intervened,
{
    let fuel = run_fuel(p, None);
    assert(runs_ok(p, None, fuel));
    lemma_plain_steps(p, p.main@.len(), fuel);
}

proof fn lemma_run_steps_prefix(p: Program, iv: Option<InterventionView>, k: nat, n: nat, fuel: nat)
    requires
        k <= n,
        run_steps(p, iv, n, fuel) is Some,
    ensures
        run_steps(p, iv, k, fuel) is Some,
        run_steps(p, iv, k, fuel).unwrap().2.len() <= run_steps(p, iv, n, fuel).unwrap().2.len(),
    decreases n,
{
    if k < n {
        lemma_run_steps_prefix(p, iv, k, (n - 1) as nat, fuel);
    }
}

impl<'a> Interpreter<'a> {
    /// The program this interpreter runs.
    pub closed spec fn program(&self) -> Program {
        *self.program
    }

    /// An interpreter for `program`.
    pub fn new(program: &'a Program) -> (r: Self)
        ensures
            r.program() == *program,
    {
        Interpreter { program }
    }

    /// Runs `main` straight through, recording a trace.
    pub fn run(&self) -> (t: Trace)
        requires
            terminates(self.program(), None),
        ensures
            t.view() == run_trace(self.program(), None),
    {
        self.run_with(None)
    }

    /// Runs `main`, optionally applying a single intervention.
    pub fn run_with(&self, intervention: Option<&Intervention>) -> (t: Trace)
        requires
            terminates(self.program(), iv_view(intervention)),
        ensures
            t.view() == run_trace(self.program(), iv_view(intervention)),
    {
        self.run_with_counts(intervention).0
    }

    /// Runs `main` and also returns how often each function executed. Counts
    /// reflect what actually executed, so an intervention that changes a
    /// branch changes the profile too.
    pub fn run_with_counts(&self, intervention: Option<&Intervention>) -> (r: (Trace, CallCounts))
        requires
            terminates(self.program(), iv_view(intervention)),
        ensures
            r.0.view() == run_trace(self.program(), iv_view(intervention)),
            counts_match(r.1@, run_counts(self.program(), iv_view(intervention))),
    {
        let ghost p = *self.program;
        let ghost iv = iv_view(intervention);
        let ghost fuel = run_fuel(p, iv);
        let ghost n = p.main@.len();
        let ghost total = run_steps(p, iv, n, fuel).unwrap().2;
        let mut env: Env = StrMap::new();
        let mut trace = Trace::new();
        let mut counts: CallCounts = StrMap::new();
        let mut i: usize = 0;
        proof {
            assert(counts@.dom() =~= tally(Seq::<Seq<char>>::empty()).dom());
        }
        while i < self.program.main.len()
            invariant
                p == *self.program,
                iv == iv_view(intervention),
                runs_ok(p, iv, fuel),
                n == p.main@.len(),
                total == run_steps(p, iv, n, fuel).unwrap().2,
                i <= n,
                run_steps(p, iv, i as nat, fuel) is Some,
                env@ == run_steps(p, iv, i as nat, fuel).unwrap().0,
                trace.view() == run_steps(p, iv, i as nat, fuel).unwrap().1,
                counts_match(counts@, tally(run_steps(p, iv, i as nat, fuel).unwrap().2)),
            decreases n - i,
        {
            let stmt = &self.program.main[i];
            let ghost log = run_steps(p, iv, i as nat, fuel).unwrap().2;
            proof {
                lemma_run_steps_prefix(p, iv, (i + 1) as nat, n, fuel);
            }
            let computed = self.eval(&stmt.expr, &env, &mut counts, Ghost(fuel), Ghost(log));
            let mut value = computed;
            let mut intervened = false;
            match intervention {
                Some(iv_exec) => {
                    if iv_exec.at_step == i && str_eq(iv_exec.var.as_str(), stmt.var.as_str()) {
                        value = iv_exec.value;
                        intervened = true;
                    }
                },
                None => {},
            }
            env.insert(stmt.var.clone(), value);
            let mut description = String::new();
            push_str(&mut description, stmt.var.as_str());
            push_str(&mut description, " = ");
            render_into(&mut description, &stmt.expr);
            push_str(&mut description, "  => ");
            push_i64_decimal(&mut description, value);
            if intervened {
                push_str(&mut description, "  [what-if]");
            }
            let snapshot = env.duplicate();
            let ghost old_view = trace.view();
            trace.steps.push(Step { seq: i, var: stmt.var.clone(), description, env: snapshot, intervened });
            proof {
                assert(hits(iv, i as int, stmt.var@) == intervened);
                assert(description@ =~= describe(stmt.var@, stmt.expr, value, intervened));
                assert(trace.view() =~= run_steps(p, iv, (i + 1) as nat, fuel).unwrap().1);
            }
            i = i + 1;
        }
        (trace, counts)
    }

    fn find(&self, name: &str) -> (r: Option<&Function>)
        ensures
            r matches Some(f) ==> lookup(self.program().funcs@, name@) == Some(*f),
            r is None ==> lookup(self.program().funcs@, name@) is None,
    {
        let mut i: usize = 0;
        while i < self.program.funcs.len()
            invariant
                i <= self.program.funcs@.len(),
                forall|j: int| 0 <= j < i ==> self.program.funcs@[j].name@ != name@,
            decreases self.program.funcs@.len() - i,
        {
            if str_eq(self.program.funcs[i].name.as_str(), name) {
                proof {
                    lemma_find_function_exact(self.program.funcs@, name@, i as int);
                }
                return Some(&self.program.funcs[i]);
            }
            i = i + 1;
        }
        proof {
            lemma_find_function(self.program.funcs@, name@);
            if find_function(self.program.funcs@, name@) is Some {
                let k = find_function(self.program.funcs@, name@)->0;
                assert(self.program.funcs@[k].name@ == name@);
            }
        }
        None
    }

    /// Evaluates an expression in `env`, tallying each executed call into
    /// `counts`. Function calls run in a fresh scope; their inner steps are
    /// not recorded, but their calls are counted.
    #[verifier::loop_isolation(false)]
    fn eval(
        &self,
        expr: &Expr,
        env: &Env,
        counts: &mut CallCounts,
        Ghost(fuel): Ghost<nat>,
        Ghost(pre): Ghost<Seq<Seq<char>>>,
    ) -> (v: Scalar)
        requires
            eval_expr(self.program(), *expr, env@, fuel) is Some,
            pre.len() + eval_expr(self.program(), *expr, env@, fuel).unwrap().1.len() <= usize::MAX,
            counts_match(old(counts)@, tally(pre)),
        ensures
            v == eval_expr(self.program(), *expr, env@, fuel).unwrap().0,
            counts_match(final(counts)@, tally(pre + eval_expr(self.program(), *expr, env@, fuel).unwrap().1)),
        decreases fuel, 0int, *expr, 0int,
    {
        let ghost p = *self.program;
        match expr {
            Expr::Num(n) => {
                assert(pre + Seq::<Seq<char>>::empty() =~= pre);
                *n
            },
            Expr::Var(name) => {
                assert(pre + Seq::<Seq<char>>::empty() =~= pre);
                match env.get(name.as_str()) {
                    Some(v) => *v,
                    None => 0,
                }
            },
            Expr::Bin(op, a, b) => {
                let ghost la = eval_expr(p, **a, env@, fuel).unwrap().1;
                let ghost lb = eval_expr(p, **b, env@, fuel).unwrap().1;
                let x = self.eval(a, env, counts, Ghost(fuel), Ghost(pre));
                let y = self.eval(b, env, counts, Ghost(fuel), Ghost(pre + la));
                assert(pre + la + lb =~= pre + (la + lb));
                apply_op(*op, x, y)
            },
            Expr::If(c, t, f) => {
                let ghost lc = eval_expr(p, **c, env@, fuel).unwrap().1;
                let cv = self.eval(c, env, counts, Ghost(fuel), Ghost(pre));
                if cv != 0 {
                    let ghost l = eval_expr(p, **t, env@, fuel).unwrap().1;
                    let r = self.eval(t, env, counts, Ghost(fuel), Ghost(pre + lc));
                    assert(pre + lc + l =~= pre + (lc + l));
                    r
                } else {
                    let ghost l = eval_expr(p, **f, env@, fuel).unwrap().1;
                    let r = self.eval(f, env, counts, Ghost(fuel), Ghost(pre + lc));
                    assert(pre + lc + l =~= pre + (lc + l));
                    r
                }
            },
            Expr::Call(name, args) => {
                let found = self.find(name.as_str());
                match found {
                    None => {
                        assert(pre + Seq::<Seq<char>>::empty() =~= pre);
                        0
                    },
                    Some(func) => {
                        let ghost full = eval_expr(p, *expr, env@, fuel).unwrap().1;
                        let ghost params = func.params@;
                        let ghost bound = bind_args(p, params, *args, 0, env@, fuel, Map::empty()).unwrap();
                        let ghost sc = bound.0;
                        let ghost la = bound.1;
                        let ghost fb = (fuel - 1) as nat;
                        let ghost bodyr = run_body(p, func.body, 0, sc, fb).unwrap();
                        let ghost sc2 = bodyr.0;
                        let ghost lb = bodyr.1;
                        let ghost lr = eval_expr(p, func.ret, sc2, fb).unwrap().1;
                        assert(full == seq![name@] + la + lb + lr);
                        // count this call
                        let current: usize = match counts.get(name.as_str()) {
                            Some(c) => *c,
                            None => 0,
                        };
                        proof {
                            lemma_tally_bound(pre, name@);
                        }
                        counts.insert(name.clone(), current + 1);
                        let ghost pre1 = pre.push(name@);
                        proof {
                            assert(pre1.drop_last() =~= pre);
                            assert(counts@.dom() =~= tally(pre1).dom());
                        }
                        // bind arguments to parameters
                        let mut scope: Env = StrMap::new();
                        let ghost mut acc: Seq<Seq<char>> = seq![];
                        proof {
                            assert(scope@ =~= Map::<Seq<char>, Scalar>::empty());
                            assert(acc + la =~= la);
                            assert(pre1 + acc =~= pre1);
                        }
                        let mut i: usize = 0;
                        while i < args.len() && i < func.params.len()
                            invariant
                                i <= args@.len(),
                                bind_args(p, params, *args, i as int, env@, fuel, scope@) is Some,
                                bind_args(p, params, *args, i as int, env@, fuel, scope@).unwrap().0 == sc,
                                acc + bind_args(p, params, *args, i as int, env@, fuel, scope@).unwrap().1 == la,
                                counts_match(counts@, tally(pre1 + acc)),
                            decreases args@.len() - i,
                        {
                            let ghost l = eval_expr(p, args@[i as int], env@, fuel).unwrap().1;
                            let ghost rest = bind_args(p, params, *args, i + 1, env@, fuel,
                                scope@.insert(params[i as int]@, eval_expr(p, args@[i as int], env@, fuel).unwrap().0)).unwrap().1;
                            proof {
                                assert(decreases_to!(*expr => (*expr)->Call_1));
                                assert((*expr)->Call_1 == *args);
                                assert(decreases_to!(*args => args@));
                                assert(decreases_to!(args@ => args@[i as int]));
                                assert(acc + (l + rest) == la);
                                assert(pre.len() + full.len() <= usize::MAX);
                                assert((pre1 + acc).len() + l.len() <= usize::MAX);
                            }
                            let v = self.eval(&args[i], env, counts, Ghost(fuel), Ghost(pre1 + acc));
                            scope.insert(func.params[i].clone(), v);
                            proof {
                                assert(pre1 + acc + l =~= pre1 + (acc + l));
                                assert(acc + l + rest =~= acc + (l + rest));
                                acc = acc + l;
                            }
                            i = i + 1;
                        }
                        assert(acc =~= la) by {
                            assert(bind_args(p, params, *args, i as int, env@, fuel, scope@).unwrap().1 =~= Seq::<Seq<char>>::empty());
                        }
                        // run the body
                        let ghost mut accb: Seq<Seq<char>> = seq![];
                        proof {
                            assert(accb + lb =~= lb);
                            assert(pre1 + la + accb =~= pre1 + la);
                        }
                        let mut k: usize = 0;
                        while k < func.body.len()
                            invariant
                                k <= func.body@.len(),
                                run_body(p, func.body, k as int, scope@, fb) is Some,
                                run_body(p, func.body, k as int, scope@, fb).unwrap().0 == sc2,
                                accb + run_body(p, func.body, k as int, scope@, fb).unwrap().1 == lb,
                                counts_match(counts@, tally(pre1 + la + accb)),
                            decreases func.body@.len() - k,
                        {
                            let stmt = &func.body[k];
                            let ghost l = eval_expr(p, stmt.expr, scope@, fb).unwrap().1;
                            let ghost rest = run_body(p, func.body, k + 1,
                                scope@.insert(stmt.var@, eval_expr(p, stmt.expr, scope@, fb).unwrap().0), fb).unwrap().1;
                            proof {
                                assert(accb + (l + rest) == lb);
                                assert((pre1 + la + accb).len() + l.len() <= usize::MAX);
                            }
                            let v = self.eval(&stmt.expr, &scope, counts, Ghost(fb), Ghost(pre1 + la + accb));
                            scope.insert(stmt.var.clone(), v);
                            proof {
                                assert(pre1 + la + accb + l =~= pre1 + la + (accb + l));
                                assert(accb + l + rest =~= accb + (l + rest));
                                accb = accb + l;
                            }
                            k = k + 1;
                        }
                        assert(accb =~= lb) by {
                            assert(run_body(p, func.body, k as int, scope@, fb).unwrap().1 =~= Seq::<Seq<char>>::empty());
                        }
                        let r = self.eval(&func.ret, &scope, counts, Ghost(fb), Ghost(pre1 + la + lb));
                        proof {
                            assert(pre1 + la + lb + lr =~= pre + full);
                        }
                        r
                    },
                }
            },
        }
    }
}

fn apply_op(op: Op, x: Scalar, y: Scalar) -> (r: Scalar)
    requires
        apply_op_spec(op, x, y) is Some,
    ensures
        apply_op_spec(op, x, y) == Some(r),
{
    match op {
        Op::Add => x + y,
        Op::Sub => x - y,
        Op::Mul => {
            assert(x * y == op_value(op, x as int, y as int));
            x * y
        },
        // Integer division guards against divide-by-zero.
        Op::Div => {
            if y == 0 {
                0
            } else {
                let ax: i128 = if x < 0 { -(x as i128) } else { x as i128 };
                let ay: i128 = if y < 0 { -(y as i128) } else { y as i128 };
                let q: i128 = ax / ay;
                assert(q <= ax) by (nonlinear_arith)
                    requires
                        ax >= 0,
                        ay >= 1,
                        q == ax / ay,
                ;
                if (x < 0) == (y < 0) {
                    q as i64
                } else {
                    (-q) as i64
                }
            }
        },
        Op::Lt => if x < y { 1 } else { 0 },
        Op::Gt => if x > y { 1 } else { 0 },
        Op::Eq => if x == y { 1 } else { 0 },
    }
}

/// Appends the rendering of `expr`.
#[verifier::loop_isolation(false)]
fn render_into(s: &mut String, expr: &Expr)
    ensures
        final(s)@ == old(s)@ + render_expr(*expr),
    decreases *expr,
{
    match expr {
        Expr::Num(n) => push_i64_decimal(s, *n),
        Expr::Var(name) => push_str(s, name.as_str()),
        Expr::Bin(op, a, b) => {
            let ghost start = s@;
            render_into(s, a);
            push_char(s, ' ');
            push_str(s, op.symbol());
            push_char(s, ' ');
            render_into(s, b);
            assert(s@ =~= start + render_expr(*expr));
        },
        Expr::If(c, t, f) => {
            let ghost start = s@;
            push_str(s, "if ");
            render_into(s, c);
            push_str(s, " then ");
            render_into(s, t);
            push_str(s, " else ");
            render_into(s, f);
            assert(s@ =~= start + render_expr(*expr));
        },
        Expr::Call(name, args) => {
            let ghost start = s@;
            push_str(s, name.as_str());
            push_char(s, '(');
            let ghost base = s@;
            let mut i: usize = 0;
            while i < args.len()
                invariant
                    i <= args@.len(),
                    base.len() <= s@.len(),
                    s@.subrange(0, base.len() as int) == base,
                    s@.subrange(base.len() as int, s@.len() as int) + render_args(*args, i as int)
                        == render_args(*args, 0),
                decreases args@.len() - i,
            {
                let ghost before = s@;
                proof {
                    assert((*expr)->Call_1 == *args);
                    assert(decreases_to!(*expr => (*expr)->Call_1));
                    assert(decreases_to!(*args => args@));
                    assert(decreases_to!(args@ => args@[i as int]));
                    assert(decreases_to!(*expr => args@[i as int]));
                }
                render_into(s, &args[i]);
                if i + 1 < args.len() {
                    push_str(s, ", ");
                }
                proof {
                    assert(s@.subrange(0, base.len() as int) =~= base);
                    assert(s@.subrange(base.len() as int, s@.len() as int) =~= before.subrange(
                        base.len() as int,
                        before.len() as int,
                    ) + render_expr(args@[i as int]) + if i + 1 < args@.len() {
                        ", "@
                    } else {
                        seq![]
                    });
                }
                i = i + 1;
            }
            proof {
                assert(render_args(*args, i as int) == Seq::<char>::empty());
                assert(s@ =~= s@.subrange(0, base.len() as int) + s@.subrange(base.len() as int, s@.len() as int));
                assert(s@ =~= base + render_args(*args, 0));
            }
            push_char(s, ')');
            proof {
                assert(s@ =~= start + render_expr(*expr));
            }
        },
    }
}

/// Renders an expression back to readable source for step descriptions.
pub fn render(expr: &Expr) -> (r: String)
    ensures
        r@ == render_expr(*expr),
{
    let mut s = String::new();
    render_into(&mut s, expr);
    assert(s@ =~= render_expr(*expr));
    s
}

/// Comparisons evaluate to 1 when they hold and to 0 otherwise, call
/// nothing, and `x > y` is `y < x`.
pub proof fn law_comparisons_are_truth_values(
    p: Program,
    x: i64,
    y: i64,
    env: Map<Seq<char>, Scalar>,
    fuel: nat,
)
    ensures
        eval_expr(p, Expr::Bin(Op::Gt, Box::new(Expr::Num(x)), Box::new(Expr::Num(y))), env, fuel) matches Some((v, l))
            && l.len() == 0 && (v == 1 <==> x > y) && (v == 0 <==> !(x > y)),
        eval_expr(p, Expr::Bin(Op::Lt, Box::new(Expr::Num(x)), Box::new(Expr::Num(y))), env, fuel) matches Some((v, l))
            && l.len() == 0 && (v == 1 <==> x < y) && (v == 0 <==> !(x < y)),
        eval_expr(p, Expr::Bin(Op::Eq, Box::new(Expr::Num(x)), Box::new(Expr::Num(y))), env, fuel) matches Some((v, l))
            && l.len() == 0 && (v == 1 <==> x == y) && (v == 0 <==> x != y),
        eval_expr(p, Expr::Bin(Op::Gt, Box::new(Expr::Num(x)), Box::new(Expr::Num(y))), env, fuel) == eval_expr(
            p,
            Expr::Bin(Op::Lt, Box::new(Expr::Num(y)), Box::new(Expr::Num(x))),
            env,
            fuel,
        ),
{
    reveal_with_fuel(eval_expr, 2);
    assert(Seq::<Seq<char>>::empty() + Seq::<Seq<char>>::empty() =~= Seq::<Seq<char>>::empty());
}

} // verus!
