use ttt::kernel::{Term, Level, Value, Closure, Environment, Neutral};
use ttt::kernel::subst::{Substitution, apply_substitution, shift_term, substitute_top, contains_var, try_apply_substitution, try_shift_term};
use ttt::kernel::name::{Name, NameContext};

#[test]
fn test_environment_operations() {
    let env = Environment::new();
    assert!(env.is_empty());
    assert_eq!(env.len(), 0);

    let val1 = Value::universe(Level(0));
    let env1 = env.extend(val1.clone());
    assert_eq!(env1.len(), 1);
    assert_eq!(env1.lookup(0), Some(&val1));

    let val2 = Value::var(0);
    let env2 = env1.extend(val2.clone());
    assert_eq!(env2.len(), 2);
    assert_eq!(env2.lookup(0), Some(&val2));
    assert_eq!(env2.lookup(1), Some(&val1));
}

#[test]
fn test_neutral_application() {
    let neutral = Neutral::new(0);
    assert!(neutral.is_variable());
    assert_eq!(neutral.arity(), 0);

    let arg = Value::universe(Level(0));
    let applied = neutral.apply(arg.clone());
    assert!(!applied.is_variable());
    assert_eq!(applied.arity(), 1);
}

#[test]
fn test_value_constructors() {
    let var = Value::var(0);
    assert!(!var.is_universe());
    assert!(!var.is_pi());
    assert!(!var.is_lambda());

    let universe = Value::universe(Level(0));
    assert!(universe.is_universe());
    assert_eq!(universe.as_universe(), Some(&Level(0)));

    let closure = Closure::empty(Term::var(0));
    let lambda = Value::lambda(closure);
    assert!(lambda.is_lambda());
}

#[test]
fn test_empty_substitution() {
    let subst = Substitution::empty();
    assert!(subst.is_empty());
    assert_eq!(subst.domain_size(), 0);
    assert_eq!(subst.lookup(0), None);
}

#[test]
fn test_single_substitution() {
    let replacement = Term::universe(0);
    let subst = Substitution::single(0, replacement.clone());
    assert!(!subst.is_empty());
    assert_eq!(subst.domain_size(), 1);
    assert_eq!(subst.lookup(0), Some(&replacement));
    assert_eq!(subst.lookup(1), None);
}

#[test]
fn test_variable_substitution() {
    let term = Term::var(0);
    let replacement = Term::universe(0);
    let subst = Substitution::single(0, replacement.clone());
    let result = apply_substitution(&term, &subst);
    assert_eq!(result, replacement);
}

#[test]
fn test_bound_variable_unchanged() {
    let term = Term::lambda(Term::var(0));
    let replacement = Term::universe(0);
    let subst = Substitution::single(0, replacement);
    let result = apply_substitution(&term, &subst);
    assert_eq!(result, term);
}

#[test]
fn test_free_variable_substitution() {
    let term = Term::lambda(Term::var(1));
    let replacement = Term::universe(0);
    let subst = Substitution::single(0, replacement.clone());
    let result = apply_substitution(&term, &subst);
    let expected = Term::lambda(replacement);
    assert_eq!(result, expected);
}

#[test]
fn test_shift_term() {
    let term = Term::lambda(Term::var(1));
    let result = shift_term(&term, 0, 1);
    let expected = Term::lambda(Term::var(2));
    assert_eq!(result, expected);
}

#[test]
fn test_substitute_top() {
    let term = Term::var(0);
    let replacement = Term::universe(0);
    let result = substitute_top(&term, &replacement);
    assert_eq!(result, replacement);
}

#[test]
fn test_substitution_composition() {
    let s1 = Substitution::single(0, Term::universe(0));
    let s2 = Substitution::single(1, Term::var(0));
    let composed = s1.compose(&s2);

    let term = Term::var(1);
    let result1 = apply_substitution(&term, &composed);
    let intermediate = apply_substitution(&term, &s2);
    let result2 = apply_substitution(&intermediate, &s1);
    assert_eq!(result1, result2);
}

#[test]
fn test_contains_var_free_and_bound() {
    let term = Term::lambda(Term::var(1));
    assert!(contains_var(&term, 0));
    assert!(!contains_var(&term, 1));
    let term2 = Term::var(0);
    assert!(contains_var(&term2, 0));
    assert!(!contains_var(&Term::lambda(Term::var(0)), 0));
}

#[test]
fn test_shift_negative_clamps_at_zero() {
    let term = Term::app(Term::var(0), Term::var(3));
    let result = shift_term(&term, 0, -2);
    assert_eq!(result, Term::app(Term::var(0), Term::var(1)));
}

#[test]
fn test_extend_pads_substitution() {
    let subst = Substitution::empty().extend(2, Term::universe(1));
    assert_eq!(subst.domain_size(), 3);
    assert_eq!(subst.lookup(0), None);
    assert_eq!(subst.lookup(2), Some(&Term::universe(1)));
    let shifted = Substitution::single(0, Term::var(0)).shift(0, 1);
    assert_eq!(shifted.lookup(0), Some(&Term::var(1)));
}

#[test]
fn test_name_creation() {
    let user_name = Name::user("x");
    assert!(!user_name.is_generated());
    assert!(!user_name.is_anonymous());
    assert_eq!(user_name.as_str(), "x");

    let fresh_name = Name::generated("y", 0);
    assert!(fresh_name.is_generated());
    assert!(!fresh_name.is_anonymous());
    assert_eq!(fresh_name.as_str(), "y");

    let anon_name = Name::generated("_", 1);
    assert!(anon_name.is_generated());
    assert!(anon_name.is_anonymous());
}

#[test]
fn test_name_context() {
    let ctx = NameContext::new();
    assert!(ctx.is_empty());
    assert_eq!(ctx.depth(), 0);

    let x = Name::user("x");
    let ctx1 = ctx.bind(x.clone());
    assert_eq!(ctx1.depth(), 1);
    assert_eq!(ctx1.lookup(&x), Some(0));

    let y = Name::user("y");
    let ctx2 = ctx1.bind(y.clone());
    assert_eq!(ctx2.depth(), 2);
    assert_eq!(ctx2.lookup(&y), Some(0));
    assert_eq!(ctx2.lookup(&x), Some(1));

    assert_eq!(ctx2.name_at(0), Some(&y));
    assert_eq!(ctx2.name_at(1), Some(&x));
}

#[test]
fn name_test_fresh_name_generation() {
    let ctx = NameContext::new()
        .bind(Name::user("x"))
        .bind(Name::user("x_1"));

    let fresh = ctx.fresh_name("x");
    assert_eq!(fresh.as_str(), "x_2");
    assert!(ctx.lookup(&fresh).is_none());
}

#[test]
fn test_fresh_name_unbound_hint_kept() {
    let ctx = NameContext::new().bind(Name::user("y"));
    assert_eq!(ctx.fresh_name("x").as_str(), "x");
}

#[test]
fn test_unique_id_rendering() {
    assert_eq!(Name::generated("v", 12).unique_id(), "v#12");
    assert_eq!(Name::user("w").unique_id(), "w");
}

#[test]
fn test_term_display() {
    let t = Term::pi(Term::universe(0), Term::app(Term::var(0), Term::var(1)));
    assert_eq!(t.to_display_string(), "(Π _ : Type0. (x #1))");
    assert_eq!(Term::meta(7).fmt_with_names(&["a"]), "?7");
    assert_eq!(Term::var(0).fmt_with_names(&["a", "b"]), "b");
    let v = Value::neutral(3, vec![std::rc::Rc::new(Value::universe(Level(2)))]);
    assert_eq!(v.to_display_string(), "#3 Type2");
}

#[test]
fn test_level_operations() {
    assert_eq!(Level(3).succ(), Level(4));
    assert_eq!(Level(u32::MAX).succ(), Level(u32::MAX));
    assert_eq!(Level::max(&Level(3), &Level(5)), Level(5));
    assert!(Level(0).is_zero());
    assert_eq!(Term::var(4).max_index(), Some(4));
    assert!(Term::lambda(Term::universe(0)).is_closed());
}

#[test]
fn test_closed_means_no_free_variable() {
    assert!(Term::lambda(Term::var(0)).is_closed());
    assert!(!Term::var(0).is_closed());
    assert!(Term::universe(0).is_closed());
    assert!(!Term::lambda(Term::var(1)).is_closed());
    assert!(Term::pi(Term::universe(0), Term::var(0)).is_closed());
    assert_eq!(Term::lambda(Term::var(3)).free_max(), Some(2));
    assert_eq!(Term::lambda(Term::var(0)).free_max(), None);
}

#[test]
fn test_substitution_under_binder_shifts_replacement_once() {
    let s = Substitution::single(0, Term::var(0));
    assert_eq!(apply_substitution(&Term::lambda(Term::var(1)), &s), Term::lambda(Term::var(1)));
    let s2 = Substitution::single(0, Term::var(2));
    assert_eq!(
        apply_substitution(&Term::lambda(Term::lambda(Term::var(2))), &s2),
        Term::lambda(Term::lambda(Term::var(4)))
    );
}

#[test]
fn test_empty_substitution_leaves_terms_unchanged() {
    let terms = vec![
        Term::var(3),
        Term::lambda(Term::app(Term::var(0), Term::var(5))),
        Term::pi(Term::universe(1), Term::let_in(Term::meta(2), Term::var(1))),
    ];
    for t in terms {
        assert_eq!(apply_substitution(&t, &Substitution::empty()), t);
        assert_eq!(apply_substitution(&t, &Substitution::identity()), t);
    }
}

#[test]
fn test_shift_then_unshift_gives_back_the_term() {
    let t = Term::lambda(Term::app(Term::var(0), Term::var(4)));
    for cutoff in 0..3 {
        for k in 1..4isize {
            let shifted = shift_term(&t, cutoff, k);
            assert_eq!(shift_term(&shifted, cutoff, -k), t);
        }
    }
    assert_eq!(shift_term(&t, 0, 2), Term::lambda(Term::app(Term::var(0), Term::var(6))));
}

#[test]
fn test_max_index_is_the_greatest_occurring_index() {
    assert_eq!(Term::app(Term::lambda(Term::var(3)), Term::var(7)).max_index(), Some(7));
    assert_eq!(Term::pi(Term::var(2), Term::meta(9)).max_index(), Some(2));
    assert_eq!(Term::lambda(Term::universe(0)).max_index(), None);
}

#[test]
fn test_lookup_finds_the_innermost_binding() {
    let x = Name::user("x");
    let y = Name::user("y");
    let ctx = NameContext::new().bind(x.clone()).bind(y.clone()).bind(x.clone());
    assert_eq!(ctx.lookup(&x), Some(0));
    assert_eq!(ctx.lookup(&y), Some(1));
    assert_eq!(ctx.name_at(1).unwrap().as_str(), "y");
    assert_eq!(ctx.lookup(&Name::user("z")), None);
    let ctx2 = ctx.bind(y.clone());
    assert_eq!(ctx2.lookup(&y), Some(0));
}

#[test]
fn test_try_apply_substitution() {
    let s = Substitution::single(0, Term::Universe(Level(1)));
    let t = Term::App(std::sync::Arc::new(Term::Var(0)), std::sync::Arc::new(Term::Var(1)));
    let r = try_apply_substitution(&t, &s).unwrap();
    assert_eq!(r, Term::App(std::sync::Arc::new(Term::Universe(Level(1))), std::sync::Arc::new(Term::Var(1))));
    assert_eq!(try_shift_term(&Term::Var(usize::MAX), 0, 1), None);
    assert_eq!(try_shift_term(&Term::Var(3), 0, -1), Some(Term::Var(2)));
    assert_eq!(try_shift_term(&Term::Var(3), 0, isize::MIN), None);
}
