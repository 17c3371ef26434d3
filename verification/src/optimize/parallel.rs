//! Units of kernel work (normalize, evaluate, compare, substitute) as
//! tasks, and what running one gives. Handing tasks to worker threads is
//! left to the caller; each task's work is done here.

use vstd::prelude::*;
use crate::kernel::{Term, Environment, Value, Neutral};
use crate::kernel::value::SemVal;
use crate::kernel::subst::{Substitution, spec_apply_subst};
use crate::eval::{spec_convertible, convertible};
use crate::eval::normalize::{normalize_in_env, evaluate};
use crate::eval::semantics::{sem_eval, sem_quote, FUEL};
use crate::optimize::fusion::{SubstitutionFusion, spec_compose_all, subst_views};
use crate::optimize::elapsed_nanos;
use crate::optimize::instant_now;
use crate::shared::debug_text;

verus! {

/// Kinds of task, with their data.
#[derive(Debug)]
pub enum TaskKind {
    /// Normalize a term in an environment
    Normalize { term: Term, env: Environment },
    /// Evaluate a term to a value
    Evaluate { term: Term, env: Environment },
    /// Check convertibility of two terms
    Convertible { lhs: Term, rhs: Term, env: Environment },
    /// Apply several substitutions as one
    ParallelSubstitution { term: Term, substitutions: Vec<Substitution> },
}

/// A task: an identifier, its work, a priority (higher is more urgent)
/// and the tasks it waits for.
#[derive(Debug)]
pub struct Task {
    pub id: u64,
    pub kind: TaskKind,
    pub priority: u8,
    pub dependencies: Vec<u64>,
}

/// What a task gives.
#[derive(Debug)]
pub enum TaskOutput {
    NormalizedTerm(Term),
    EvaluatedValue(Value),
    ConvertibilityResult(bool),
    SubstitutionResult(Term),
}

/// The outcome of a task, with the time it took.
#[derive(Debug)]
pub struct TaskResult {
    pub task_id: u64,
    pub result: Result<TaskOutput, String>,
    pub execution_time_ns: u64,
}

/// The term several substitutions give as one, applied first one first:
/// none leaves the term, one is applied, more are composed through the
/// cache.
pub open spec fn spec_fused(
    cache: Map<(Seq<Option<Term>>, Seq<Option<Term>>), Seq<Option<Term>>>,
    term: Term,
    substitutions: Seq<Substitution>,
) -> Option<Term> {
    if substitutions.len() == 0 {
        Some(term)
    } else if substitutions.len() == 1 {
        spec_apply_subst(term, substitutions[0]@, 0)
    } else {
        match spec_compose_all(cache, subst_views(substitutions)) {
            Some(fused) => spec_apply_subst(term, fused.0, 0),
            None => None,
        }
    }
}

/// Whether a fusion engine can run a substitution task: the fused result
/// exists and the counters have room.
pub open spec fn fusion_ready(fusion: SubstitutionFusion, term: Term, substitutions: Seq<Substitution>) -> bool {
    &&& spec_fused(fusion.cache(), term, substitutions) is Some
    &&& fusion.fusion_hits + substitutions.len() <= u64::MAX
    &&& fusion.fusion_misses + substitutions.len() <= u64::MAX
}

/// Whether a task can run with the given fusion engine.
pub open spec fn task_ready(task: Task, fusion: SubstitutionFusion) -> bool {
    match task.kind {
        TaskKind::ParallelSubstitution { term, substitutions } => fusion_ready(fusion, term, substitutions@),
        _ => true,
    }
}

/// What running a task gives: normal form, value or convertibility from
/// the kernel, the fused substitution's result; a failure of normalization
/// or evaluation as an error text (its prefix stated here).
pub open spec fn task_outcome_ok(task: Task, fusion: SubstitutionFusion, r: Result<TaskOutput, String>) -> bool {
    match task.kind {
        TaskKind::Normalize { term, env } => match sem_eval(term, env@, FUEL as nat) {
            Ok(v) => r matches Ok(TaskOutput::NormalizedTerm(n))
                && n == sem_quote(v, env@.len() as usize, (usize::MAX - env@.len()) as nat),
            Err(_) => r matches Err(text) && "Normalization error: "@.is_prefix_of(text@),
        },
        TaskKind::Evaluate { term, env } => match sem_eval(term, env@, FUEL as nat) {
            Ok(v) => r matches Ok(TaskOutput::EvaluatedValue(val)) && val@ == v,
            Err(_) => r matches Err(text) && "Evaluation error: "@.is_prefix_of(text@),
        },
        TaskKind::Convertible { lhs, rhs, env } => r == Ok::<TaskOutput, String>(
            TaskOutput::ConvertibilityResult(spec_convertible(lhs, rhs)),
        ),
        TaskKind::ParallelSubstitution { term, substitutions } => r matches Ok(TaskOutput::SubstitutionResult(s))
            && Some(s) == spec_fused(fusion.cache(), term, substitutions@),
    }
}

fn prefixed(prefix: &str, text: String) -> (r: String)
    ensures
        r@ == prefix@ + text@,
{
    let mut s = String::from_str(prefix);
    s.append(text.as_str());
    s
}

/// Run a task as a worker does: the kernel's result, or the failure as a
/// text, with the time taken
pub fn execute_task(task: &Task, fusion: &mut SubstitutionFusion) -> (r: TaskResult)
    requires
        task_ready(*task, *old(fusion)),
    ensures
        r.task_id == task.id,
        task_outcome_ok(*task, *old(fusion), r.result),
{
    let start_time = instant_now();
    let result = match &task.kind {
        TaskKind::Normalize { term, env } => match normalize_in_env(term, env) {
            Ok(normalized) => Ok(TaskOutput::NormalizedTerm(normalized)),
            Err(e) => {
                proof { reveal_strlit("Normalization error: "); }
                Err(prefixed("Normalization error: ", debug_text(&e)))
            },
        },
        TaskKind::Evaluate { term, env } => match evaluate(term, env) {
            Ok(value) => Ok(TaskOutput::EvaluatedValue(value)),
            Err(e) => {
                proof { reveal_strlit("Evaluation error: "); }
                Err(prefixed("Evaluation error: ", debug_text(&e)))
            },
        },
        TaskKind::Convertible { lhs, rhs, env: _ } => Ok(TaskOutput::ConvertibilityResult(convertible(lhs, rhs))),
        TaskKind::ParallelSubstitution { term, substitutions } => {
            let result = fusion.fuse_substitutions(term, substitutions.as_slice());
            Ok(TaskOutput::SubstitutionResult(result))
        },
    };
    let execution_time_ns = elapsed_nanos(&start_time);
    TaskResult { task_id: task.id, result, execution_time_ns }
}

/// Run a task directly, falling back where the kernel fails: an
/// unnormalizable term is given back as it is, an unevaluable one becomes
/// the stuck variable 0
pub fn execute_task_sync(task: &Task, fusion: &mut SubstitutionFusion) -> (r: TaskOutput)
    requires
        task_ready(*task, *old(fusion)),
    ensures
        match task.kind {
            TaskKind::Normalize { term, env } => match sem_eval(term, env@, FUEL as nat) {
                Ok(v) => r == TaskOutput::NormalizedTerm(
                    sem_quote(v, env@.len() as usize, (usize::MAX - env@.len()) as nat),
                ),
                Err(_) => r == TaskOutput::NormalizedTerm(term),
            },
            TaskKind::Evaluate { term, env } => match sem_eval(term, env@, FUEL as nat) {
                Ok(v) => r matches TaskOutput::EvaluatedValue(val) && val@ == v,
                Err(_) => r matches TaskOutput::EvaluatedValue(val) && val@ == SemVal::Neutral(0, Seq::empty()),
            },
            TaskKind::Convertible { lhs, rhs, env } => r == TaskOutput::ConvertibilityResult(spec_convertible(lhs, rhs)),
            TaskKind::ParallelSubstitution { term, substitutions } => r matches TaskOutput::SubstitutionResult(s)
                && Some(s) == spec_fused(old(fusion).cache(), term, substitutions@),
        },
{
    match &task.kind {
        TaskKind::Normalize { term, env } => match normalize_in_env(term, env) {
            Ok(normalized) => TaskOutput::NormalizedTerm(normalized),
            Err(_) => TaskOutput::NormalizedTerm(term.copy()),
        },
        TaskKind::Evaluate { term, env } => match evaluate(term, env) {
            Ok(value) => TaskOutput::EvaluatedValue(value),
            Err(_) => TaskOutput::EvaluatedValue(Value::Neutral(Neutral::new(0))),
        },
        TaskKind::Convertible { lhs, rhs, env: _ } => TaskOutput::ConvertibilityResult(convertible(lhs, rhs)),
        TaskKind::ParallelSubstitution { term, substitutions } => {
            TaskOutput::SubstitutionResult(fusion.fuse_substitutions(term, substitutions.as_slice()))
        },
    }
}

} // verus!
