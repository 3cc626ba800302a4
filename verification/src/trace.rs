//! Execution trace model: the recorded history the debugger time-travels over.

use vstd::prelude::*;
use crate::lang::Scalar;
use crate::strmap::StrMap;

verus! {

/// Variable environment, ordered by name so snapshots are deterministic.
pub type Env = StrMap<Scalar>;

/// One recorded execution step (after executing one top-level statement).
#[derive(Debug)]
pub struct Step {
    /// Position of this step within its branch.
    pub seq: usize,
    /// The variable this statement bound.
    pub var: String,
    /// Human-readable rendering, e.g. `area = rect_area(w, h)  => 7`.
    pub description: String,
    /// Full variable environment immediately after this step.
    pub env: Env,
    /// True if this step's value was overridden by a what-if intervention.
    pub intervened: bool,
}

/// The mathematical content of a step.
pub struct StepView {
    pub seq: nat,
    pub var: Seq<char>,
    pub description: Seq<char>,
    pub env: Map<Seq<char>, Scalar>,
    pub intervened: bool,
}

impl Step {
    pub open spec fn view(self) -> StepView {
        StepView {
            seq: self.seq as nat,
            var: self.var@,
            description: self.description@,
            env: self.env@,
            intervened: self.intervened,
        }
    }
}

/// An ordered list of steps: one linear run of the program.
#[derive(Debug)]
pub struct Trace {
    pub steps: Vec<Step>,
}

/// The value of `var` in the environment of the last step that binds it.
pub open spec fn last_value_of(steps: Seq<StepView>, var: Seq<char>) -> Option<Scalar>
    decreases steps.len(),
{
    if steps.len() == 0 {
        None
    } else if steps.last().env.contains_key(var) {
        Some(steps.last().env[var])
    } else {
        last_value_of(steps.drop_last(), var)
    }
}

impl Trace {
    pub open spec fn view(self) -> Seq<StepView> {
        self.steps@.map_values(|s: Step| s.view())
    }

    /// An empty trace.
    pub fn new() -> (r: Self)
        ensures
            r.view() == Seq::<StepView>::empty(),
    {
        let r = Trace { steps: Vec::new() };
        assert(r.view() =~= Seq::<StepView>::empty());
        r
    }

    /// The latest recorded value of `var`.
    pub fn last_value(&self, var: &str) -> (r: Option<Scalar>)
        ensures
            r == last_value_of(self.view(), var@),
    {
        let mut i = self.steps.len();
        assert(self.view().take(i as int) =~= self.view());
        while i > 0
            invariant
                i <= self.steps@.len(),
                last_value_of(self.view(), var@) == last_value_of(self.view().take(i as int), var@),
            decreases i,
        {
            let ghost prefix = self.view().take(i as int);
            assert(prefix.drop_last() =~= self.view().take(i - 1));
            match self.steps[i - 1].env.get(var) {
                Some(v) => {
                    return Some(*v);
                },
                None => {},
            }
            i = i - 1;
        }
        None
    }

    /// The environment after the last step (empty for an empty trace).
    pub fn final_env(&self) -> (r: Env)
        ensures
            r@ == if self.view().len() == 0 {
                Map::<Seq<char>, Scalar>::empty()
            } else {
                self.view().last().env
            },
    {
        if self.steps.len() == 0 {
            StrMap::new()
        } else {
            self.steps[self.steps.len() - 1].env.duplicate()
        }
    }

    /// Number of steps.
    pub fn len(&self) -> (r: usize)
        ensures
            r == self.view().len(),
    {
        self.steps.len()
    }

    /// True when no step was recorded.
    pub fn is_empty(&self) -> (r: bool)
        ensures
            r == (self.view().len() == 0),
    {
        self.steps.len() == 0
    }
}

} // verus!
