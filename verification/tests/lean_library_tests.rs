use ttt::kernel::{Term, Level};
use ttt::lean::types::{LeanTerm, LeanLevel, LeanName};
use ttt::lean::mathlib::{TheoremCategory, TypePattern, MathlibTheorem, SearchIndex, TheoremDatabase, SearchQuery};
use ttt::lean::parallel::{TranslationTask, TaskPriority, estimate_translation_cost, DependencyTracker};
use ttt::text::{str_starts_with, str_contains};

#[test]
fn test_category_detection() {
    assert_eq!(TheoremCategory::from_name("Group.mul_assoc"), TheoremCategory::GroupTheory);
    assert_eq!(TheoremCategory::from_name("Real.add_comm"), TheoremCategory::RealAnalysis);
    assert_eq!(TheoremCategory::from_name("Logic.And.intro"), TheoremCategory::Logic);
}

#[test]
fn test_type_pattern_matching() {
    let nat_type = LeanTerm::const_(LeanName::new("Nat"));
    let pattern = TypePattern::from_term(&nat_type);

    assert_eq!(pattern.head, "Nat");
    assert_eq!(pattern.arity, 0);
    assert!(!pattern.is_prop);
}

#[test]
fn test_task_creation() {
    let term = Term::Universe(Level(0));
    let task = TranslationTask::new(1, term)
        .with_priority(TaskPriority::High)
        .with_dependencies(vec![]);

    assert_eq!(task.id, 1);
    assert_eq!(task.priority, TaskPriority::High);
    assert!(task.dependencies.is_empty());
}

#[test]
fn test_translation_cost_estimation() {
    assert_eq!(estimate_translation_cost(&Term::Universe(Level(0))), 1);
    assert_eq!(estimate_translation_cost(&Term::Var(0)), 1);

    let app = Term::app(Term::Universe(Level(0)), Term::Var(0));
    assert_eq!(estimate_translation_cost(&app), 7); // 5 + 1 + 1
}

// ---------------------------------------------------------------------
// Further cases
// ---------------------------------------------------------------------

#[test]
fn test_category_order_and_words() {
    // "Prop." anywhere wins over later rules.
    assert_eq!(TheoremCategory::from_name("Ring.Prop.foo"), TheoremCategory::Logic);
    assert_eq!(TheoremCategory::from_name("Set.union"), TheoremCategory::SetTheory);
    assert_eq!(TheoremCategory::from_name("foo.RingHom"), TheoremCategory::RingTheory);
    assert_eq!(TheoremCategory::from_name("LinearMap.comp"), TheoremCategory::LinearAlgebra);
    assert_eq!(TheoremCategory::from_name("MeasureTheory.ae"), TheoremCategory::MeasureTheory);
    assert_eq!(TheoremCategory::from_name("Nat.succ_le"), TheoremCategory::Unknown);
    assert_eq!(TheoremCategory::all().len(), 25);
    assert_eq!(TheoremCategory::all()[24], TheoremCategory::Unknown);
}

#[test]
fn test_type_pattern_shapes() {
    let sort = TypePattern::from_term(&LeanTerm::sort(LeanLevel::zero()));
    assert_eq!(sort.head, "Sort");
    let app = LeanTerm::app(
        LeanTerm::app(LeanTerm::const_(LeanName::new("Eq")), LeanTerm::const_(LeanName::new("a"))),
        LeanTerm::const_(LeanName::new("b")),
    );
    let p = TypePattern::from_term(&app);
    assert_eq!((p.head.as_str(), p.arity), ("Eq", 2));
    let pi = LeanTerm::pi(LeanName::new("x"), LeanTerm::const_(LeanName::new("Nat")), LeanTerm::const_(LeanName::new("Prop")));
    let pp = TypePattern::from_term(&pi);
    assert!(pp.is_function && pp.is_dependent && pp.arity == 1);
    let prop = TypePattern::from_term(&LeanTerm::const_(LeanName::new("Prop")));
    assert!(prop.is_prop);
    assert!(pp.matches(&pi));
    assert!(!prop.matches(&app));
    assert!(p.matches(&LeanTerm::const_(LeanName::new("Eq"))));
}

#[test]
fn test_costs_and_priorities() {
    let t = Term::let_in(Term::universe(0), Term::pi(Term::var(0), Term::lambda(Term::var(0))));
    assert_eq!(estimate_translation_cost(&t), 15 + 1 + 10 + 1 + 10 + 1);
    assert!(TaskPriority::Low < TaskPriority::Normal);
    assert!(TaskPriority::High < TaskPriority::Critical);
    let task = TranslationTask::new(7, t.clone()).with_dependencies(vec![1, 2]);
    assert_eq!(task.priority, TaskPriority::Normal);
    assert_eq!(task.dependencies, vec![1, 2]);
    assert_eq!(task.estimated_cost, 38);
    assert_eq!(task.term, t);
}

#[test]
fn test_text_search() {
    assert!(str_starts_with("Group.mul", "Group."));
    assert!(!str_starts_with("Gr", "Group."));
    assert!(str_contains("abcRingdef", "Ring"));
    assert!(str_contains("abc", ""));
    assert!(!str_contains("abc", "abcd"));
    assert!(!str_contains("abcabd", "abe"));
}

#[test]
fn test_dependency_tracker_releases_tasks_when_their_dependencies_complete() {
    let mut tracker = DependencyTracker::new();
    tracker.submit_task(&TranslationTask::new(1, Term::universe(0)));
    tracker.submit_task(&TranslationTask::new(2, Term::universe(0)));
    tracker.submit_task(&TranslationTask::new(3, Term::var(0)).with_dependencies(vec![1, 2]));
    tracker.submit_task(&TranslationTask::new(4, Term::var(1)).with_dependencies(vec![1]));
    assert_eq!(tracker.queued(), &vec![1, 2]);
    assert!(tracker.is_waiting(3));
    assert!(tracker.is_waiting(4));

    tracker.handle_task_completion(1);
    assert_eq!(tracker.queued(), &vec![1, 2, 4]);
    assert!(tracker.is_waiting(3));
    assert!(!tracker.is_waiting(4));

    tracker.handle_task_completion(2);
    assert_eq!(tracker.queued(), &vec![1, 2, 4, 3]);
    assert!(!tracker.is_waiting(3));

    // A task with no dependents releases nothing.
    tracker.handle_task_completion(4);
    assert_eq!(tracker.queued(), &vec![1, 2, 4, 3]);
}

#[test]
fn test_theorem_creation() {
    let statement = LeanTerm::pi(
        LeanName::new("x"),
        LeanTerm::const_(LeanName::new("Nat")),
        LeanTerm::const_(LeanName::new("True")),
    );
    let theorem = MathlibTheorem::new("test_theorem".to_string(), statement);
    assert_eq!(theorem.name, "test_theorem");
    assert_eq!(theorem.category, TheoremCategory::Unknown);
    assert!(theorem.complexity > 0);
}

#[test]
fn test_search_index() {
    let mut index = SearchIndex::new();
    let theorem = MathlibTheorem::new("test_theorem".to_string(), LeanTerm::const_(LeanName::new("Nat")));
    index.add_theorem(&theorem);
    let results = index.search_by_name("test");
    assert_eq!(results.len(), 1);
    assert_eq!(results[0], "test_theorem");
}

#[test]
fn test_database_operations() {
    let mut db = TheoremDatabase::new();
    let theorem = MathlibTheorem::new("test_theorem".to_string(), LeanTerm::const_(LeanName::new("Nat")));
    db.add_theorem(theorem).unwrap();
    let retrieved = db.get_theorem("test_theorem");
    assert!(retrieved.is_some());
    let stats = db.stats();
    assert_eq!(stats.total_theorems, 1);
}

#[test]
fn test_database_searches() {
    let mut db = TheoremDatabase::new();
    let mut a = MathlibTheorem::new("Nat.add_comm".to_string(), LeanTerm::const_(LeanName::new("Nat")));
    a.doc_string = Some("Addition is Commutative".to_string());
    let mut b = MathlibTheorem::new("Group.mul_assoc".to_string(), LeanTerm::app(LeanTerm::const_(LeanName::new("Eq")), LeanTerm::var(LeanName::new("g"))));
    b.doc_string = Some("multiplication is associative".to_string());
    db.add_theorem(a).unwrap();
    db.add_theorem(b).unwrap();
    assert_eq!(db.search(&SearchQuery::ByName("add".to_string())).len(), 1);
    assert_eq!(db.search(&SearchQuery::ByCategory(TheoremCategory::GroupTheory))[0].name, "Group.mul_assoc");
    assert_eq!(db.search(&SearchQuery::ByVariable("g".to_string()))[0].name, "Group.mul_assoc");
    assert_eq!(db.search(&SearchQuery::ByDocumentation("is commutative".to_string()))[0].name, "Nat.add_comm");
    assert!(db.search(&SearchQuery::ByDocumentation("".to_string())).is_empty());
    let both = SearchQuery::Combined(vec![SearchQuery::ByDocumentation("is".to_string()), SearchQuery::ByName("Group".to_string())]);
    let found = db.search(&both);
    assert_eq!(found.len(), 1);
    assert_eq!(found[0].name, "Group.mul_assoc");
    let goal = LeanTerm::const_(LeanName::new("Nat"));
    let applicable = db.find_applicable(&goal);
    assert_eq!(applicable.len(), 1);
    assert!(applicable[0].is_applicable_to(&goal));
    // Adding a theorem of the same name replaces it but indexes it again.
    db.add_theorem(MathlibTheorem::new("Nat.add_comm".to_string(), LeanTerm::const_(LeanName::new("Nat")))).unwrap();
    assert_eq!(db.stats().total_theorems, 2);
    assert_eq!(db.search(&SearchQuery::ByType(goal.clone())).len(), 2);
    let stats = db.stats();
    assert!(stats.category_distribution.iter().any(|(c, n)| *c == TheoremCategory::GroupTheory && *n == 1));
    assert_eq!(stats.complexity_sum, 3);
}
