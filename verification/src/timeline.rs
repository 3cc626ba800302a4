//! The branching timeline: time travel over execution traces.
//!
//! Branch 0 is the original run. From any step of any branch a new branch can
//! be spawned with a what-if intervention; the consequences re-propagate
//! forward. Branches are independent histories, and divergence analysis
//! reports where two of them first differ.

use vstd::prelude::*;
use crate::interp::{
    bind_args, eval_expr, iv_view, run_body, run_fuel, run_steps, run_trace, runs_ok, terminates,
    hits, Intervention, InterventionView, Interpreter,
};
use crate::lang::{lookup, Expr, Program, Stmt, Scalar};
use crate::trace::{StepView, Trace};

verus! {

/// A single timeline branch.
#[derive(Debug)]
pub struct Branch {
    pub id: usize,
    pub label: String,
    /// Where this branch was forked from: `(parent_branch_id, step_index)`.
    pub origin: Option<(usize, usize)>,
    pub trace: Trace,
}

/// The mathematical content of a branch.
pub struct BranchView {
    pub id: nat,
    pub label: Seq<char>,
    pub origin: Option<(usize, usize)>,
    pub trace: Seq<StepView>,
}

impl Branch {
    pub open spec fn view(self) -> BranchView {
        BranchView { id: self.id as nat, label: self.label@, origin: self.origin, trace: self.trace.view() }
    }
}

/// A tree of execution branches over one program.
pub struct Timeline {
    program: Program,
    branches: Vec<Branch>,
}

/// The first index below `n` at which the two traces' environments differ.
pub open spec fn first_diff(ta: Seq<StepView>, tb: Seq<StepView>, n: nat) -> Option<nat>
    decreases n,
{
    if n == 0 {
        None
    } else {
        match first_diff(ta, tb, (n - 1) as nat) {
            Some(i) => Some(i),
            None => if ta[n - 1].env != tb[n - 1].env {
                Some((n - 1) as nat)
            } else {
                None
            },
        }
    }
}

/// The first step at which two traces' environments differ, over their
/// common length.
pub open spec fn first_divergence_of(ta: Seq<StepView>, tb: Seq<StepView>) -> Option<nat> {
    first_diff(ta, tb, if ta.len() < tb.len() { ta.len() } else { tb.len() })
}

impl Timeline {
    /// The program every branch runs.
    pub closed spec fn program(&self) -> Program {
        self.program
    }

    /// The branches, in creation order.
    pub closed spec fn branches_view(&self) -> Seq<BranchView> {
        self.branches@.map_values(|b: Branch| b.view())
    }

    /// Records the baseline run as branch 0.
    pub fn record(program: Program) -> (r: Self)
        requires
            terminates(program, None),
        ensures
            r.program() == program,
            r.branches_view() == seq![
                BranchView { id: 0, label: "main"@, origin: None, trace: run_trace(program, None) },
            ],
    {
        let trace = Interpreter::new(&program).run();
        let root = Branch { id: 0, label: "main".to_string(), origin: None, trace };
        let mut branches = Vec::new();
        branches.push(root);
        let r = Timeline { program, branches };
        assert(r.branches_view() =~= seq![
            BranchView { id: 0, label: "main"@, origin: None, trace: run_trace(program, None) },
        ]);
        r
    }

    /// All branches.
    pub fn branches(&self) -> (r: &[Branch])
        ensures
            r@.map_values(|b: Branch| b.view()) == self.branches_view(),
    {
        self.branches.as_slice()
    }

    /// The branch with the given id.
    pub fn branch(&self, id: usize) -> (r: Option<&Branch>)
        ensures
            r is Some <==> id < self.branches_view().len(),
            r matches Some(b) ==> b.view() == self.branches_view()[id as int],
    {
        if id < self.branches.len() {
            Some(&self.branches[id])
        } else {
            None
        }
    }

    /// Forks a new branch: re-runs the program forcing `var = value` at
    /// `at_step`. Returns the new branch id.
    pub fn fork_what_if(&mut self, from_branch: usize, at_step: usize, var: &str, value: Scalar, label: &str) -> (r: usize)
        requires
            terminates(old(self).program(), Some(InterventionView { at_step: at_step as nat, var: var@, value })),
        ensures
            final(self).program() == old(self).program(),
            r == old(self).branches_view().len(),
            final(self).branches_view() == old(self).branches_view().push(
                BranchView {
                    id: r as nat,
                    label: label@,
                    origin: Some((from_branch, at_step)),
                    trace: run_trace(old(self).program(), Some(InterventionView { at_step: at_step as nat, var: var@, value })),
                },
            ),
    {
        let intervention = Intervention { at_step, var: var.to_string(), value };
        let trace = Interpreter::new(&self.program).run_with(Some(&intervention));
        let id = self.branches.len();
        let ghost old_view = self.branches_view();
        self.branches.push(Branch { id, label: label.to_string(), origin: Some((from_branch, at_step)), trace });
        assert(self.branches_view() =~= old_view.push(
            BranchView {
                id: id as nat,
                label: label@,
                origin: Some((from_branch, at_step)),
                trace: run_trace(self.program, Some(InterventionView { at_step: at_step as nat, var: var@, value })),
            },
        ));
        id
    }

    /// First step index at which two branches' environments differ: where
    /// things started to go differently. `None` when either branch is
    /// missing or the environments agree over the common length.
    pub fn first_divergence(&self, a: usize, b: usize) -> (r: Option<usize>)
        ensures
            r == (if a < self.branches_view().len() && b < self.branches_view().len() {
                match first_divergence_of(self.branches_view()[a as int].trace, self.branches_view()[b as int].trace) {
                    Some(i) => Some(i as usize),
                    None => None,
                }
            } else {
                None
            }),
    {
        if a >= self.branches.len() || b >= self.branches.len() {
            return None;
        }
        let ta = &self.branches[a].trace;
        let tb = &self.branches[b].trace;
        let n = if ta.steps.len() < tb.steps.len() { ta.steps.len() } else { tb.steps.len() };
        let ghost va = ta.view();
        let ghost vb = tb.view();
        assert(va == self.branches_view()[a as int].trace);
        assert(vb == self.branches_view()[b as int].trace);
        let mut i: usize = 0;
        while i < n
            invariant
                i <= n,
                n == (if va.len() < vb.len() { va.len() } else { vb.len() }),
                va == ta.view(),
                vb == tb.view(),
                a < self.branches_view().len(),
                b < self.branches_view().len(),
                va == self.branches_view()[a as int].trace,
                vb == self.branches_view()[b as int].trace,
                first_diff(va, vb, i as nat) is None,
            decreases n - i,
        {
            if !ta.steps[i].env.same_as(&tb.steps[i].env) {
                proof {
                    assert(va[i as int].env == ta.steps@[i as int].env@);
                    assert(vb[i as int].env == tb.steps@[i as int].env@);
                    lemma_first_diff_extend(va, vb, i as nat, n as nat);
                }
                return Some(i);
            }
            i = i + 1;
        }
        None
    }
}

proof fn lemma_first_diff_extend(ta: Seq<StepView>, tb: Seq<StepView>, i: nat, n: nat)
    requires
        i < n,
        first_diff(ta, tb, i) is None,
        ta[i as int].env != tb[i as int].env,
    ensures
        first_diff(ta, tb, n) == Some(i),
    decreases n,
{
    if n > i + 1 {
        lemma_first_diff_extend(ta, tb, i, (n - 1) as nat);
    }
}

// ---- laws ----

proof fn lemma_eval_mono(p: Program, e: Expr, env: Map<Seq<char>, Scalar>, f1: nat, f2: nat)
    requires
        f1 <= f2,
        eval_expr(p, e, env, f1) is Some,
    ensures
        eval_expr(p, e, env, f2) == eval_expr(p, e, env, f1),
    decreases f1, 0int, e, 0int,
{
    match e {
        Expr::Num(_) => {},
        Expr::Var(_) => {},
        Expr::Bin(_, a, b) => {
            lemma_eval_mono(p, *a, env, f1, f2);
            lemma_eval_mono(p, *b, env, f1, f2);
        },
        Expr::If(c, t, f) => {
            lemma_eval_mono(p, *c, env, f1, f2);
            if eval_expr(p, *c, env, f1).unwrap().0 != 0 {
                lemma_eval_mono(p, *t, env, f1, f2);
            } else {
                lemma_eval_mono(p, *f, env, f1, f2);
            }
        },
        Expr::Call(name, args) => {
            match lookup(p.funcs@, name@) {
                None => {},
                Some(func) => {
                    lemma_bind_mono(p, func.params@, args, 0, env, f1, f2, Map::empty());
                    let scope = bind_args(p, func.params@, args, 0, env, f1, Map::empty()).unwrap().0;
                    lemma_body_mono(p, func.body, 0, scope, (f1 - 1) as nat, (f2 - 1) as nat);
                    let scope2 = run_body(p, func.body, 0, scope, (f1 - 1) as nat).unwrap().0;
                    lemma_eval_mono(p, func.ret, scope2, (f1 - 1) as nat, (f2 - 1) as nat);
                },
            }
        },
    }
}

proof fn lemma_bind_mono(
    p: Program,
    params: Seq<String>,
    args: Vec<Expr>,
    i: int,
    env: Map<Seq<char>, Scalar>,
    f1: nat,
    f2: nat,
    scope: Map<Seq<char>, Scalar>,
)
    requires
        f1 <= f2,
        bind_args(p, params, args, i, env, f1, scope) is Some,
    ensures
        bind_args(p, params, args, i, env, f2, scope) == bind_args(p, params, args, i, env, f1, scope),
    decreases f1, 0int, args, args@.len() - i,
{
    if !(i < 0 || i >= args@.len() || i >= params.len()) {
        assert(decreases_to!(args => args@));
        assert(decreases_to!(args@ => args@[i]));
        lemma_eval_mono(p, args@[i], env, f1, f2);
        let v = eval_expr(p, args@[i], env, f1).unwrap().0;
        lemma_bind_mono(p, params, args, i + 1, env, f1, f2, scope.insert(params[i]@, v));
    }
}

proof fn lemma_body_mono(p: Program, body: Vec<Stmt>, k: int, scope: Map<Seq<char>, Scalar>, f1: nat, f2: nat)
    requires
        f1 <= f2,
        run_body(p, body, k, scope, f1) is Some,
    ensures
        run_body(p, body, k, scope, f2) == run_body(p, body, k, scope, f1),
    decreases f1, 1int, body, body@.len() - k,
{
    if !(k < 0 || k >= body@.len()) {
        lemma_eval_mono(p, body@[k].expr, scope, f1, f2);
        let v = eval_expr(p, body@[k].expr, scope, f1).unwrap().0;
        lemma_body_mono(p, body, k + 1, scope.insert(body@[k].var@, v), f1, f2);
    }
}

proof fn lemma_steps_mono(p: Program, iv: Option<InterventionView>, k: nat, f1: nat, f2: nat)
    requires
        f1 <= f2,
        run_steps(p, iv, k, f1) is Some,
    ensures
        run_steps(p, iv, k, f2) == run_steps(p, iv, k, f1),
        run_steps(p, iv, k, f1).unwrap().1.len() == k,
    decreases k,
{
    if k > 0 {
        lemma_steps_mono(p, iv, (k - 1) as nat, f1, f2);
        let env = run_steps(p, iv, (k - 1) as nat, f1).unwrap().0;
        lemma_eval_mono(p, p.main@[k - 1].expr, env, f1, f2);
    }
}

/// A recorded trace has one step per statement of `main`, and step `i`
/// is numbered `i` and binds the variable of statement `i`.
pub proof fn law_trace_has_one_step_per_statement(p: Program, iv: Option<InterventionView>)
    requires
        terminates(p, iv),
    ensures
        run_trace(p, iv).len() == p.main@.len(),
        forall|i: int| 0 <= i < p.main@.len() ==> (#[trigger] run_trace(p, iv)[i]).seq == i
            && run_trace(p, iv)[i].var == p.main@[i].var@,
{
    let f = run_fuel(p, iv);
    lemma_steps_mono(p, iv, p.main@.len(), f, f);
    lemma_step_shape(p, iv, p.main@.len(), f);
}

proof fn lemma_step_shape(p: Program, iv: Option<InterventionView>, k: nat, f: nat)
    requires
        run_steps(p, iv, k, f) is Some,
    ensures
        forall|i: int| 0 <= i < k ==> (#[trigger] run_steps(p, iv, k, f).unwrap().1[i]).seq == i
            && run_steps(p, iv, k, f).unwrap().1[i].var == p.main@[i].var@,
        run_steps(p, iv, k, f).unwrap().1.len() == k,
    decreases k,
{
    if k > 0 {
        lemma_step_shape(p, iv, (k - 1) as nat, f);
    }
}

proof fn lemma_agree_before(p: Program, iv: InterventionView, k: nat, f: nat)
    requires
        k <= iv.at_step,
        run_steps(p, None, k, f) is Some,
        run_steps(p, Some(iv), k, f) is Some,
    ensures
        run_steps(p, None, k, f) == run_steps(p, Some(iv), k, f),
    decreases k,
{
    if k > 0 {
        lemma_agree_before(p, iv, (k - 1) as nat, f);
        assert(!hits(Some(iv), k - 1, p.main@[k - 1].var@));
        assert(!hits(None, k - 1, p.main@[k - 1].var@));
    }
}

/// A what-if run agrees with the baseline run on every step before the
/// intervention: re-running with an intervention changes nothing earlier.
pub proof fn law_intervention_preserves_earlier_steps(p: Program, iv: InterventionView)
    requires
        terminates(p, None),
        terminates(p, Some(iv)),
    ensures
        forall|i: int|
            0 <= i < iv.at_step && i < p.main@.len() ==> #[trigger] run_trace(p, None)[i] == run_trace(p, Some(iv))[i],
{
    let f1 = run_fuel(p, None);
    let f2 = run_fuel(p, Some(iv));
    assert(runs_ok(p, None, f1));
    assert(runs_ok(p, Some(iv), f2));
    let f = if f1 < f2 { f2 } else { f1 };
    let n = p.main@.len();
    lemma_steps_mono(p, None, n, f1, f);
    lemma_steps_mono(p, Some(iv), n, f2, f);
    let k: nat = if iv.at_step < n { iv.at_step } else { n };
    crate::interp::lemma_steps_prefix_exact(p, None, k, n, f);
    crate::interp::lemma_steps_prefix_exact(p, Some(iv), k, n, f);
    lemma_agree_before(p, iv, k, f);
    let ta = run_steps(p, None, n, f).unwrap().1;
    let tb = run_steps(p, Some(iv), n, f).unwrap().1;
    assert(run_trace(p, None) == ta);
    assert(run_trace(p, Some(iv)) == tb);
    assert forall|i: int| 0 <= i < iv.at_step && i < p.main@.len() implies #[trigger] run_trace(p, None)[i]
        == run_trace(p, Some(iv))[i] by {
        assert(ta.take(k as int)[i] == tb.take(k as int)[i]);
    }
}

/// When the intervention rebinds the variable of its step to a value other
/// than the baseline's, the two runs first diverge exactly at that step.
pub proof fn law_divergence_is_the_intervened_step(p: Program, iv: InterventionView)
    requires
        terminates(p, None),
        terminates(p, Some(iv)),
        iv.at_step < p.main@.len(),
        p.main@[iv.at_step as int].var@ == iv.var,
        run_trace(p, None)[iv.at_step as int].env[iv.var] != iv.value,
    ensures
        first_divergence_of(run_trace(p, None), run_trace(p, Some(iv))) == Some(iv.at_step),
{
    law_intervention_preserves_earlier_steps(p, iv);
    law_trace_has_one_step_per_statement(p, None);
    law_trace_has_one_step_per_statement(p, Some(iv));
    let ta = run_trace(p, None);
    let tb = run_trace(p, Some(iv));
    let s = iv.at_step;
    lemma_no_diff_before(ta, tb, s);
    let f = run_fuel(p, Some(iv));
    crate::interp::lemma_intervened_env(p, iv, f);
    assert(tb[s as int].env[iv.var] == iv.value);
    assert(ta[s as int].env != tb[s as int].env);
    lemma_first_diff_extend(ta, tb, s, p.main@.len());
}

proof fn lemma_no_diff_before(ta: Seq<StepView>, tb: Seq<StepView>, n: nat)
    requires
        forall|i: int| 0 <= i < n ==> #[trigger] ta[i] == tb[i],
    ensures
        first_diff(ta, tb, n) is None,
    decreases n,
{
    if n > 0 {
        lemma_no_diff_before(ta, tb, (n - 1) as nat);
        assert(ta[n - 1] == tb[n - 1]);
    }
}

} // verus!
