//! Translation tasks for a scheduler: identity, priority, dependencies and
//! an estimate of the work a translation takes.

use vstd::prelude::*;
use std::collections::HashMap;
use std::time::{Duration, Instant};
use crate::kernel::Term;
use crate::optimize::instant_now;
use super::types::LeanTerm;
use super::error::LeanResult;

verus! {

broadcast use vstd::std_specs::hash::group_hash_axioms;

/// Unique identifier for translation tasks
pub type TaskId = u64;

/// Priority levels for translation tasks, lowest first
#[derive(Debug, Clone, Copy, PartialEq, Eq, PartialOrd, Ord, Hash, Structural)]
pub enum TaskPriority {
    Low,
    Normal,
    High,
    Critical,
}

/// The estimated cost of translating a term: 1 per leaf, 5 per
/// application, 10 per lambda or Pi, 15 per let.
pub open spec fn spec_cost(t: Term) -> nat
    decreases t,
{
    match t {
        Term::Universe(_) | Term::Var(_) | Term::Meta(_) => 1,
        Term::App(f, a) => 5 + spec_cost(*f) + spec_cost(*a),
        Term::Lambda(b) => 10 + spec_cost(*b),
        Term::Pi(d, c) => 10 + spec_cost(*d) + spec_cost(*c),
        Term::Let(v, b) => 15 + spec_cost(*v) + spec_cost(*b),
    }
}

/// Estimate the computational cost of translating a term
pub fn estimate_translation_cost(term: &Term) -> (r: u32)
    requires
        spec_cost(*term) <= u32::MAX,
    ensures
        r == spec_cost(*term),
    decreases term,
{
    match term {
        Term::Universe(_) | Term::Var(_) | Term::Meta(_) => 1,
        Term::App(f, a) => 5 + estimate_translation_cost(f) + estimate_translation_cost(a),
        Term::Lambda(body) => 10 + estimate_translation_cost(body),
        Term::Pi(ty, body) => 10 + estimate_translation_cost(ty) + estimate_translation_cost(body),
        Term::Let(def, body) => 15 + estimate_translation_cost(def) + estimate_translation_cost(body),
    }
}

/// Result of a completed translation task
#[derive(Debug)]
pub struct TaskResult {
    pub task_id: TaskId,
    pub result: LeanResult<LeanTerm>,
    pub execution_time: Duration,
    pub worker_id: usize,
}

/// Translation task with dependencies and metadata
#[derive(Debug, Clone)]
pub struct TranslationTask {
    pub id: TaskId,
    pub term: Term,
    pub priority: TaskPriority,
    pub dependencies: Vec<TaskId>,
    pub created_at: Instant,
    pub estimated_cost: u32,
}

impl TranslationTask {
    /// A task of normal priority with no dependencies, created now
    pub fn new(id: TaskId, term: Term) -> (r: Self)
        requires
            spec_cost(term) <= u32::MAX,
        ensures
            r.id == id,
            r.term == term,
            r.priority == TaskPriority::Normal,
            r.dependencies@ == Seq::<TaskId>::empty(),
            r.estimated_cost == spec_cost(term),
    {
        let estimated_cost = estimate_translation_cost(&term);
        TranslationTask {
            id,
            term,
            priority: TaskPriority::Normal,
            dependencies: Vec::new(),
            created_at: instant_now(),
            estimated_cost,
        }
    }

    /// The task with another priority
    pub fn with_priority(self, priority: TaskPriority) -> (r: Self)
        ensures
            r == (TranslationTask { priority, ..self }),
    {
        let mut task = self;
        task.priority = priority;
        task
    }

    /// The task with other dependencies
    pub fn with_dependencies(self, deps: Vec<TaskId>) -> (r: Self)
        ensures
            r == (TranslationTask { dependencies: deps, ..self }),
    {
        let mut task = self;
        task.dependencies = deps;
        task
    }
}

/// Counters of parallel translation; worker utilization in hundredths of
/// a percent, one entry per worker.
#[derive(Debug)]
pub struct ParallelMetrics {
    pub tasks_per_second: u64,
    pub average_task_time: u64,
    pub worker_utilization: Vec<u64>,
    pub queue_depth: usize,
    pub parallel_efficiency: u64,
}

impl ParallelMetrics {
    /// Counters at zero for `num_workers` workers
    pub fn new(num_workers: usize) -> (r: Self)
        ensures
            r.tasks_per_second == 0,
            r.average_task_time == 0,
            r.worker_utilization@ == Seq::new(num_workers as nat, |i: int| 0u64),
            r.queue_depth == 0,
            r.parallel_efficiency == 0,
    {
        let mut worker_utilization: Vec<u64> = Vec::new();
        let mut i: usize = 0;
        while i < num_workers
            invariant
                i <= num_workers,
                worker_utilization@ == Seq::new(i as nat, |j: int| 0u64),
            decreases num_workers - i,
        {
            worker_utilization.push(0);
            i = i + 1;
            assert(worker_utilization@ =~= Seq::new(i as nat, |j: int| 0u64));
        }
        ParallelMetrics {
            tasks_per_second: 0,
            average_task_time: 0,
            worker_utilization,
            queue_depth: 0,
            parallel_efficiency: 0,
        }
    }
}

// ---------------------------------------------------------------------
// Dependency bookkeeping of the scheduler
// ---------------------------------------------------------------------

/// The lists of a map of id lists, as sequences.
pub open spec fn id_lists(m: Map<u64, Vec<u64>>) -> Map<u64, Seq<u64>> {
    m.map_values(|v: Vec<u64>| v@)
}

/// The ids waiting on `dep` in a dependency graph: its list, or none.
pub open spec fn waiting_on(g: Map<u64, Seq<u64>>, dep: u64) -> Seq<u64> {
    if g.contains_key(dep) { g[dep] } else { Seq::empty() }
}

/// The dependency graph after task `id` is recorded as waiting on each of
/// `deps` in turn: `id` is appended to the list of each (a dependency
/// named twice gets `id` twice).
pub open spec fn spec_link(g: Map<u64, Seq<u64>>, deps: Seq<u64>, id: u64) -> Map<u64, Seq<u64>>
    decreases deps.len(),
{
    if deps.len() == 0 {
        g
    } else {
        let g1 = spec_link(g, deps.drop_last(), id);
        g1.insert(deps.last(), waiting_on(g1, deps.last()).push(id))
    }
}

/// The test that keeps every id but `done`.
pub open spec fn other_than(done: u64) -> spec_fn(u64) -> bool {
    |x: u64| x != done
}

/// The waiting tasks and the queue after the tasks `ds` that waited on the
/// completed task `done` are visited in turn: a visited task that is still
/// waiting drops `done` from its dependencies; when none are left it stops
/// waiting and joins the queue.
pub open spec fn spec_release(w: Map<u64, Seq<u64>>, q: Seq<u64>, ds: Seq<u64>, done: u64) -> (Map<u64, Seq<u64>>, Seq<u64>)
    decreases ds.len(),
{
    if ds.len() == 0 {
        (w, q)
    } else {
        let (w1, q1) = spec_release(w, q, ds.drop_last(), done);
        let d = ds.last();
        if w1.contains_key(d) {
            let rest = w1[d].filter(other_than(done));
            if rest.len() == 0 {
                (w1.remove(d), q1.push(d))
            } else {
                (w1.insert(d, rest), q1)
            }
        } else {
            (w1, q1)
        }
    }
}

/// A copy of a list of ids.
fn copy_ids(v: &Vec<u64>) -> (r: Vec<u64>)
    ensures
        r@ == v@,
{
    let mut r: Vec<u64> = Vec::new();
    let mut i: usize = 0;
    while i < v.len()
        invariant
            i <= v@.len(),
            r@ == v@.take(i as int),
        decreases v@.len() - i,
    {
        r.push(v[i]);
        i = i + 1;
        assert(r@ =~= v@.take(i as int));
    }
    assert(v@.take(v@.len() as int) =~= v@);
    r
}

/// The dependency bookkeeping of a task scheduler: which tasks wait on
/// which, and the order in which tasks become ready. The tasks themselves,
/// and the workers that take them from the queue, stay with the caller.
pub struct DependencyTracker {
    waiting: HashMap<u64, Vec<u64>>,
    dependents: HashMap<u64, Vec<u64>>,
    queued: Vec<u64>,
    tasks_submitted: u64,
    tasks_completed: u64,
}

impl DependencyTracker {
    /// The tasks still waiting, with the dependencies they still wait on.
    pub closed spec fn spec_waiting(&self) -> Map<u64, Seq<u64>> {
        id_lists(self.waiting@)
    }

    /// For each task id, the tasks recorded as waiting on it, in order.
    pub closed spec fn spec_dependents(&self) -> Map<u64, Seq<u64>> {
        id_lists(self.dependents@)
    }

    /// The ids of the tasks made ready, in the order they were queued.
    pub closed spec fn spec_queued(&self) -> Seq<u64> {
        self.queued@
    }

    /// The counts of tasks submitted and completed.
    pub closed spec fn spec_counts(&self) -> (u64, u64) {
        (self.tasks_submitted, self.tasks_completed)
    }

    /// Nothing waiting, nothing queued, counts at zero
    pub fn new() -> (r: Self)
        ensures
            r.spec_waiting() == Map::<u64, Seq<u64>>::empty(),
            r.spec_dependents() == Map::<u64, Seq<u64>>::empty(),
            r.spec_queued() == Seq::<u64>::empty(),
            r.spec_counts() == (0u64, 0u64),
    {
        let r = DependencyTracker {
            waiting: HashMap::new(),
            dependents: HashMap::new(),
            queued: Vec::new(),
            tasks_submitted: 0,
            tasks_completed: 0,
        };
        assert(r.spec_waiting() =~= Map::<u64, Seq<u64>>::empty());
        assert(r.spec_dependents() =~= Map::<u64, Seq<u64>>::empty());
        r
    }

    /// Submit a task: one with no dependencies is queued at once; one with
    /// dependencies is recorded as waiting on each of them and waits.
    pub fn submit_task(&mut self, task: &TranslationTask)
        ensures
            final(self).spec_counts() == (old(self).spec_counts().0.wrapping_add(1), old(self).spec_counts().1),
            task.dependencies@.len() == 0 ==> {
                &&& final(self).spec_queued() == old(self).spec_queued().push(task.id)
                &&& final(self).spec_waiting() == old(self).spec_waiting()
                &&& final(self).spec_dependents() == old(self).spec_dependents()
            },
            task.dependencies@.len() > 0 ==> {
                &&& final(self).spec_queued() == old(self).spec_queued()
                &&& final(self).spec_waiting() == old(self).spec_waiting().insert(task.id, task.dependencies@)
                &&& final(self).spec_dependents() == spec_link(old(self).spec_dependents(), task.dependencies@, task.id)
            },
    {
        self.tasks_submitted = self.tasks_submitted.wrapping_add(1);
        if task.dependencies.len() == 0 {
            self.queued.push(task.id);
            return;
        }
        let ghost g0 = old(self).spec_dependents();
        let mut i: usize = 0;
        assert(task.dependencies@.take(0) =~= Seq::<u64>::empty());
        while i < task.dependencies.len()
            invariant
                i <= task.dependencies@.len(),
                id_lists(self.dependents@) == spec_link(g0, task.dependencies@.take(i as int), task.id),
                self.waiting == old(self).waiting,
                self.queued == old(self).queued,
                self.tasks_submitted == old(self).tasks_submitted.wrapping_add(1),
                self.tasks_completed == old(self).tasks_completed,
            decreases task.dependencies@.len() - i,
        {
            let dep = task.dependencies[i];
            let ghost g1 = id_lists(self.dependents@);
            let entry = match self.dependents.get(&dep) {
                Some(list) => {
                    let mut list2 = copy_ids(list);
                    list2.push(task.id);
                    list2
                },
                None => {
                    let mut list2: Vec<u64> = Vec::new();
                    list2.push(task.id);
                    list2
                },
            };
            assert(entry@ == waiting_on(g1, dep).push(task.id)) by {
                if !g1.contains_key(dep) {
                    assert(entry@ =~= Seq::<u64>::empty().push(task.id));
                }
            }
            self.dependents.insert(dep, entry);
            i = i + 1;
            proof {
                let ds = task.dependencies@.take(i as int);
                assert(ds.drop_last() =~= task.dependencies@.take(i - 1));
                assert(ds.last() == dep);
                assert(id_lists(self.dependents@) =~= g1.insert(dep, entry@));
            }
        }
        assert(task.dependencies@.take(task.dependencies@.len() as int) =~= task.dependencies@);
        let deps = copy_ids(&task.dependencies);
        self.waiting.insert(task.id, deps);
        assert(id_lists(self.waiting@) =~= old(self).spec_waiting().insert(task.id, task.dependencies@));
    }

    /// Record that a task completed: each task recorded as waiting on it
    /// that still waits drops it from its dependencies, and is queued when
    /// none are left.
    pub fn handle_task_completion(&mut self, task_id: TaskId)
        ensures
            final(self).spec_counts() == (old(self).spec_counts().0, old(self).spec_counts().1.wrapping_add(1)),
            final(self).spec_dependents() == old(self).spec_dependents(),
            (final(self).spec_waiting(), final(self).spec_queued()) == spec_release(
                old(self).spec_waiting(),
                old(self).spec_queued(),
                waiting_on(old(self).spec_dependents(), task_id),
                task_id,
            ),
    {
        self.tasks_completed = self.tasks_completed.wrapping_add(1);
        let ds = match self.dependents.get(&task_id) {
            Some(list) => copy_ids(list),
            None => Vec::new(),
        };
        let ghost w0 = old(self).spec_waiting();
        let ghost q0 = old(self).spec_queued();
        assert(ds@ == waiting_on(old(self).spec_dependents(), task_id));
        let mut i: usize = 0;
        assert(ds@.take(0) =~= Seq::<u64>::empty());
        while i < ds.len()
            invariant
                i <= ds@.len(),
                (id_lists(self.waiting@), self.queued@) == spec_release(w0, q0, ds@.take(i as int), task_id),
                self.dependents == old(self).dependents,
                self.tasks_submitted == old(self).tasks_submitted,
                self.tasks_completed == old(self).tasks_completed.wrapping_add(1),
            decreases ds@.len() - i,
        {
            let d = ds[i];
            let ghost w1 = id_lists(self.waiting@);
            let ghost q1 = self.queued@;
            match self.waiting.remove(&d) {
                Some(deps) => {
                    let mut rest: Vec<u64> = Vec::new();
                    let mut j: usize = 0;
                    assert(deps@.take(0) =~= Seq::<u64>::empty());
                    while j < deps.len()
                        invariant
                            j <= deps@.len(),
                            rest@ == deps@.take(j as int).filter(other_than(task_id)),
                        decreases deps@.len() - j,
                    {
                        let x = deps[j];
                        proof {
                            assert(deps@.take(j + 1) =~= deps@.take(j as int).push(x));
                            deps@.take(j as int).lemma_filter_push(x, other_than(task_id));
                        }
                        if x != task_id {
                            rest.push(x);
                        }
                        j = j + 1;
                    }
                    assert(deps@.take(deps@.len() as int) =~= deps@);
                    assert(w1.contains_key(d) && w1[d] == deps@);
                    assert(rest@ == w1[d].filter(other_than(task_id)));
                    if rest.len() == 0 {
                        self.queued.push(d);
                        assert(id_lists(self.waiting@) =~= w1.remove(d));
                    } else {
                        self.waiting.insert(d, rest);
                        assert(id_lists(self.waiting@) =~= w1.insert(d, rest@));
                    }
                },
                None => {
                    assert(!w1.contains_key(d));
                    assert(id_lists(self.waiting@) =~= w1);
                },
            }
            i = i + 1;
            proof {
                let t = ds@.take(i as int);
                assert(t.drop_last() =~= ds@.take(i - 1));
                assert(t.last() == d);
                assert(spec_release(w0, q0, ds@.take(i - 1), task_id) == (w1, q1));
            }
        }
        assert(ds@.take(ds@.len() as int) =~= ds@);
    }

    /// The ids of the tasks made ready, in the order they were queued
    pub fn queued(&self) -> (r: &Vec<u64>)
        ensures
            r@ == self.spec_queued(),
    {
        &self.queued
    }

    /// Whether a task still waits on some dependency
    pub fn is_waiting(&self, task_id: TaskId) -> (r: bool)
        ensures
            r == self.spec_waiting().contains_key(task_id),
    {
        self.waiting.contains_key(&task_id)
    }
}

} // verus!
