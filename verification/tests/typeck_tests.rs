use ttt::kernel::{Term, Level, Value, Closure};
use ttt::typeck::{Context, LocalContext, TypeChecker, CheckError, check, infer, check_type, index_to_level, level_to_index};
use ttt::typeck::checker::{elaborate, check_definition};
use ttt::typeck::constraints::{Constraint, ConstraintSolver, MetaSubstitution};
use ttt::typeck::inference::{MetavarGenerator, InferenceContext, ImplicitInference, PolymorphicInference, ConstraintGenerator};

#[test]
fn test_empty_context() {
    let ctx = Context::empty();
    assert!(ctx.is_empty());
    assert_eq!(ctx.len(), 0);
    assert_eq!(ctx.lookup_type(0), None);
}

#[test]
fn test_extend_context() {
    let ctx = Context::empty();
    let typ = Value::universe(Level(0));
    let ctx1 = ctx.extend("x".to_string(), typ.clone());
    assert_eq!(ctx1.len(), 1);
    assert_eq!(ctx1.lookup_type(0), Some(&typ));
    assert_eq!(ctx1.lookup_name(0), Some(&"x".to_string()));
}

#[test]
fn test_multiple_bindings() {
    let ctx = Context::empty();
    let typ1 = Value::universe(Level(0));
    let typ2 = Value::var(0);
    let ctx1 = ctx.extend("A".to_string(), typ1.clone());
    let ctx2 = ctx1.extend("x".to_string(), typ2.clone());
    assert_eq!(ctx2.len(), 2);
    assert_eq!(ctx2.lookup_type(0), Some(&typ2));
    assert_eq!(ctx2.lookup_type(1), Some(&typ1));
    assert_eq!(ctx2.lookup_name(0), Some(&"x".to_string()));
    assert_eq!(ctx2.lookup_name(1), Some(&"A".to_string()));
}

#[test]
fn context_test_index_level_conversion() {
    let ctx = Context::empty()
        .extend("A".to_string(), Value::universe(Level(0)))
        .extend("B".to_string(), Value::universe(Level(0)))
        .extend("x".to_string(), Value::var(1));
    assert_eq!(ctx.index_to_level(0), Some(2));
    assert_eq!(ctx.index_to_level(1), Some(1));
    assert_eq!(ctx.index_to_level(2), Some(0));
    assert_eq!(ctx.level_to_index(0), Some(2));
    assert_eq!(ctx.level_to_index(1), Some(1));
    assert_eq!(ctx.level_to_index(2), Some(0));
}

#[test]
fn test_find_by_name() {
    let ctx = Context::empty()
        .extend("A".to_string(), Value::universe(Level(0)))
        .extend("x".to_string(), Value::var(0))
        .extend("A".to_string(), Value::var(1));
    assert_eq!(ctx.find_by_name("A"), Some(0));
    assert_eq!(ctx.find_by_name("x"), Some(1));
    assert_eq!(ctx.find_by_name("y"), None);
}

#[test]
fn test_local_context() {
    let base = Context::empty().extend("A".to_string(), Value::universe(Level(0)));
    let mut local = LocalContext::new(&base);
    local.extend("x".to_string(), Value::var(0));
    assert_eq!(local.len(), 2);
    assert_eq!(local.lookup_name(0), Some(&"x".to_string()));
    assert_eq!(local.lookup_name(1), Some(&"A".to_string()));
}

#[test]
fn test_fresh_var() {
    let ctx = Context::empty().extend("A".to_string(), Value::universe(Level(0)));
    let fresh = ctx.fresh_var();
    assert_eq!(fresh, Value::var(1));
}

#[test]
fn test_extend_many() {
    let ctx = Context::empty();
    let bindings = vec![
        ("A".to_string(), Value::universe(Level(0))),
        ("B".to_string(), Value::universe(Level(0))),
    ];
    let extended = ctx.extend_many(bindings);
    assert_eq!(extended.len(), 2);
    assert_eq!(extended.lookup_name(0), Some(&"B".to_string()));
    assert_eq!(extended.lookup_name(1), Some(&"A".to_string()));
}

#[test]
fn test_context_contains_and_environment() {
    let ctx = Context::empty().extend("A".to_string(), Value::universe(Level(3)));
    assert!(ctx.contains_name("A"));
    assert!(!ctx.contains_name("B"));
    assert_eq!(ctx.lookup_value(0), Some(&Value::universe(Level(3))));
    assert_eq!(ctx.environment().len(), 1);
    let local = LocalContext::new(&ctx);
    assert_eq!(local.to_context().len(), 1);
}

#[test]
fn test_meta_substitution() {
    let mut subst = MetaSubstitution::new();
    let value = Value::universe(Level(0));
    assert!(!subst.is_assigned(0));
    subst.assign(0, value.clone());
    assert!(subst.is_assigned(0));
    assert_eq!(subst.lookup(0), Some(&value));
}

#[test]
fn test_constraint_solver() {
    let mut solver = ConstraintSolver::new();
    let meta1 = solver.fresh_meta();
    let meta2 = solver.fresh_meta();
    assert_eq!(meta1, 0);
    assert_eq!(meta2, 1);
}

#[test]
fn test_unify_universes() {
    let mut solver = ConstraintSolver::new();
    let val1 = Value::universe(Level(0));
    let val2 = Value::universe(Level(0));
    solver.add_constraint(Constraint::Equal(val1, val2));
    assert!(solver.solve().is_ok());
}

#[test]
fn test_unify_universe_mismatch() {
    let mut solver = ConstraintSolver::new();
    let val1 = Value::universe(Level(0));
    let val2 = Value::universe(Level(0).succ());
    solver.add_constraint(Constraint::Equal(val1, val2));
    assert!(solver.solve().is_err());
}

#[test]
fn test_assign_metavar() {
    let mut solver = ConstraintSolver::new();
    let meta = solver.fresh_meta();
    let value = Value::universe(Level(0));
    solver.add_constraint(Constraint::Assign(meta, value.clone()));
    solver.solve().unwrap();
    assert_eq!(solver.substitution().lookup(meta), Some(&value));
}

#[test]
fn test_occurs_check() {
    let solver = ConstraintSolver::new();
    let meta = 0;
    let self_ref = Value::neutral(meta, vec![]);
    assert!(solver.occurs_check(meta, &self_ref));
    let universe = Value::universe(Level(0));
    assert!(!solver.occurs_check(meta, &universe));
}

#[test]
fn test_apply_substitution() {
    let mut subst = MetaSubstitution::new();
    let replacement = Value::universe(Level(0));
    subst.assign(0, replacement.clone());
    let neutral = Value::neutral(0, vec![]);
    let result = subst.apply_to_value(&neutral);
    assert_eq!(result, replacement);
}

#[test]
fn test_unify_metavariable_assigns() {
    let mut solver = ConstraintSolver::new();
    let m = solver.fresh_meta();
    solver.add_constraint(Constraint::Equal(Value::neutral(m, vec![]), Value::universe(Level(2))));
    assert!(solver.solve().is_ok());
    assert!(solver.is_solved());
    assert_eq!(solver.substitution().lookup(m), Some(&Value::universe(Level(2))));
}

#[test]
fn test_occurs_check_rejects_assignment() {
    let mut solver = ConstraintSolver::new();
    let looping = Value::neutral(0, vec![std::rc::Rc::new(Value::universe(Level(0)))]);
    solver.add_constraint(Constraint::Assign(0, looping));
    assert!(solver.solve().is_err());
}

#[test]
fn checker_test_check_universe() {
    let mut checker = TypeChecker::new();
    let context = Context::empty();
    let term = Term::universe(0);
    let expected = Value::universe(Level(1));
    assert!(checker.check(&term, &expected, &context).is_ok());
}

#[test]
fn checker_test_infer_universe() {
    let mut checker = TypeChecker::new();
    let context = Context::empty();
    let term = Term::universe(0);
    let result = checker.infer(&term, &context).unwrap();
    assert_eq!(result, Value::universe(Level(1)));
}

#[test]
fn checker_test_check_variable() {
    let mut checker = TypeChecker::new();
    let context = Context::empty().extend("A".to_string(), Value::universe(Level(0)));
    let term = Term::var(0);
    let expected = Value::universe(Level(0));
    assert!(checker.check(&term, &expected, &context).is_ok());
}

#[test]
fn test_infer_variable() {
    let mut checker = TypeChecker::new();
    let var_type = Value::universe(Level(0));
    let context = Context::empty().extend("A".to_string(), var_type.clone());
    let term = Term::var(0);
    let result = checker.infer(&term, &context).unwrap();
    assert_eq!(result, var_type);
}

#[test]
fn test_check_pi_type() {
    let mut checker = TypeChecker::new();
    let context = Context::empty();
    let pi_term = Term::pi(Term::universe(0), Term::universe(0));
    let expected = Value::universe(Level(1));
    assert!(checker.check(&pi_term, &expected, &context).is_ok());
}

#[test]
fn test_infer_pi_type() {
    let mut checker = TypeChecker::new();
    let context = Context::empty();
    let pi_term = Term::pi(Term::universe(0), Term::universe(0));
    let result = checker.infer(&pi_term, &context).unwrap();
    assert_eq!(result, Value::universe(Level(1)));
}

#[test]
fn test_infer_application() {
    let mut checker = TypeChecker::new();
    let id_type = {
        let a_type = Value::universe(Level(0));
        let arrow_closure = Closure::empty(Term::pi(Term::var(0), Term::var(1)));
        Value::pi(a_type, arrow_closure)
    };
    let context = Context::empty()
        .extend("A".to_string(), Value::universe(Level(0)))
        .extend("id".to_string(), id_type);
    let app = Term::app(Term::var(0), Term::var(1));
    let result = checker.infer(&app, &context);
    assert!(result.is_ok());
}

#[test]
fn test_type_mismatch() {
    let mut checker = TypeChecker::new();
    let context = Context::empty();
    let term = Term::universe(0);
    let expected = Value::universe(Level(0));
    assert!(checker.check(&term, &expected, &context).is_err());
}

#[test]
fn test_unbound_variable() {
    let mut checker = TypeChecker::new();
    let context = Context::empty();
    let term = Term::var(0);
    let result = checker.infer(&term, &context);
    assert!(matches!(result, Err(CheckError::UnboundVariable(0))));
}

#[test]
fn test_elaborate() {
    let context = Context::empty();
    let term = Term::universe(0);
    let result = elaborate(&term, &context).unwrap();
    assert_eq!(result.0, term);
    assert_eq!(result.1, Value::universe(Level(1)));
}

#[test]
fn test_check_definition_with_annotation() {
    let context = Context::empty();
    let term = Term::universe(0);
    let type_annotation = Term::universe(1);
    let result = check_definition("mytype", &term, Some(&type_annotation), &context);
    assert!(result.is_ok());
    let (value, typ) = result.unwrap();
    assert_eq!(value, Value::universe(Level(0)));
    assert_eq!(typ, Value::universe(Level(1)));
}

#[test]
fn test_check_definition_inferred() {
    let context = Context::empty();
    let term = Term::universe(0);
    let result = check_definition("mytype", &term, None, &context);
    assert!(result.is_ok());
    let (value, typ) = result.unwrap();
    assert_eq!(value, Value::universe(Level(0)));
    assert_eq!(typ, Value::universe(Level(1)));
}

#[test]
fn test_infer_lambda_cannot_infer_and_meta() {
    let mut checker = TypeChecker::new();
    let context = Context::empty();
    let lam = Term::lambda(Term::var(0));
    assert!(matches!(checker.infer(&lam, &context), Err(CheckError::CannotInfer(_))));
    let m = checker.infer(&Term::meta(5), &context).unwrap();
    assert_eq!(m, Value::neutral(0, vec![]));
}

#[test]
fn test_invalid_level_message() {
    let context = Context::empty().extend("x".to_string(), Value::var(7));
    match check_type(&Term::var(0), &context) {
        Err(CheckError::InvalidLevel(msg)) => assert_eq!(msg, "Expected universe, got #7"),
        other => panic!("unexpected {:?}", other),
    }
}

#[test]
fn mod_test_check_universe() {
    let context = Context::empty();
    let term = Term::universe(0);
    let expected = Value::universe(Level(1));
    assert!(check(&term, &expected, &context).is_ok());
}

#[test]
fn mod_test_infer_universe() {
    let context = Context::empty();
    let term = Term::universe(0);
    let result = infer(&term, &context).unwrap();
    assert_eq!(result, Value::universe(Level(1)));
}

#[test]
fn mod_test_check_variable() {
    let mut context = Context::empty();
    let var_type = Value::universe(Level(0));
    context = context.extend("x".to_string(), var_type.clone());
    let term = Term::var(0);
    assert!(check(&term, &var_type, &context).is_ok());
}

#[test]
fn mod_test_index_level_conversion() {
    assert_eq!(index_to_level(0, 3), Some(2));
    assert_eq!(index_to_level(1, 3), Some(1));
    assert_eq!(index_to_level(2, 3), Some(0));
    assert_eq!(index_to_level(3, 3), None);
    assert_eq!(level_to_index(0, 3), Some(2));
    assert_eq!(level_to_index(1, 3), Some(1));
    assert_eq!(level_to_index(2, 3), Some(0));
    assert_eq!(level_to_index(3, 3), None);
}

#[test]
fn test_check_type() {
    let context = Context::empty();
    let type_term = Term::universe(0);
    let level = check_type(&type_term, &context).unwrap();
    assert_eq!(level, Level(1));
}

#[test]
fn test_metavar_generator() {
    let mut gen = MetavarGenerator::new();
    assert_eq!(gen.fresh(), 0);
    assert_eq!(gen.fresh(), 1);
    assert_eq!(gen.fresh(), 2);
    gen.reset();
    assert_eq!(gen.fresh(), 0);
}

#[test]
fn test_inference_context() {
    let base = Context::empty();
    let mut inf_ctx = InferenceContext::new(base);
    let typ = Value::universe(Level(0));
    let meta_id = inf_ctx.add_metavar(typ.clone());
    assert_eq!(meta_id, 0);
    assert_eq!(inf_ctx.metavar_type(meta_id), Some(&typ));
    assert_eq!(inf_ctx.metavar_type(999), None);
}

#[test]
fn test_inference_context_extend() {
    let base = Context::empty();
    let inf_ctx = InferenceContext::new(base);
    let typ = Value::universe(Level(0));
    let extended = inf_ctx.extend("A".to_string(), typ.clone());
    assert_eq!(extended.context().len(), 1);
    assert_eq!(extended.context().lookup_type(0), Some(&typ));
}

#[test]
fn test_implicit_inference() {
    let context = Context::empty();
    let mut impl_inf = ImplicitInference::new(context);
    let function_type = Value::universe(Level(0));
    let explicit_args: Vec<Term> = vec![];
    let result = impl_inf.infer_implicit_args(&function_type, &explicit_args);
    assert!(result.is_ok());
    let (implicit_args, residual_type) = result.unwrap();
    assert!(implicit_args.is_empty());
    assert_eq!(residual_type, function_type);
}

#[test]
fn test_polymorphic_inference() {
    let mut poly_inf = PolymorphicInference::new();
    let typ = Value::universe(Level(0));
    let skolem = poly_inf.introduce_skolem("A".to_string(), typ.clone());
    assert_eq!(skolem, Value::var(0));
    assert_eq!(poly_inf.skolems().len(), 1);
    assert_eq!(poly_inf.skolems()[0], ("A".to_string(), typ));
    let typ_with_skolem = Value::var(0);
    assert!(poly_inf.escapes_scope(&typ_with_skolem));
    let typ_without_skolem = Value::universe(Level(0));
    assert!(!poly_inf.escapes_scope(&typ_without_skolem));
}

#[test]
fn test_constraint_generator() {
    let mut gen = ConstraintGenerator::new();
    let val1 = Value::universe(Level(0));
    let val2 = Value::universe(Level(0));
    gen.equal(val1.clone(), val2.clone());
    gen.instance(val1.clone(), val2.clone());
    gen.assign(0, val1.clone());
    assert_eq!(gen.constraints().len(), 3);
    let constraints = gen.take_constraints();
    assert_eq!(constraints.len(), 3);
    assert_eq!(gen.constraints().len(), 0);
}

#[test]
fn test_largest_universe_has_no_type() {
    let mut checker = TypeChecker::new();
    let ctx = Context::empty();
    assert!(matches!(checker.infer(&Term::universe(u32::MAX), &ctx), Err(CheckError::InvalidLevel(_))));
    assert_eq!(checker.infer(&Term::universe(3), &ctx).unwrap(), Value::universe(Level(4)));
}
