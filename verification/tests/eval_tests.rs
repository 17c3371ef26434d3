use ttt::kernel::{Term, Level, Value, Closure, Environment, Neutral};
use ttt::eval::{EvalError, normalize, evaluate, convertible, convertible_values};
use ttt::eval::normalize::{force_value, is_normal};
use ttt::eval::apply::{apply_value, instantiate_closure, apply_spine, is_applicable, apply_lazy};
use ttt::eval::quotation::{quote, quote_eta, normalize_quote, is_eta_long};
use ttt::eval::convert::{convertible_structural, convertible_neutral, convertible_with_type, convertible_whnf,
    types_convertible, universe_level, is_type, convertible_with_variance, Variance};

#[test]
fn test_evaluate_variable() {
    let env = Environment::new().extend(Value::universe(Level(0)));
    let term = Term::var(0);
    let result = evaluate(&term, &env).unwrap();
    assert_eq!(result, Value::universe(Level(0)));
}

#[test]
fn test_evaluate_universe() {
    let env = Environment::new();
    let term = Term::universe(1);
    let result = evaluate(&term, &env).unwrap();
    assert_eq!(result, Value::universe(Level(1)));
}

#[test]
fn test_evaluate_lambda() {
    let env = Environment::new();
    let term = Term::lambda(Term::var(0));
    let result = evaluate(&term, &env).unwrap();
    match result {
        Value::Lambda(closure) => {
            assert_eq!(closure.env, env);
            assert_eq!(*closure.term, Term::var(0));
        },
        _ => panic!("Expected lambda value"),
    }
}

#[test]
fn test_evaluate_application() {
    let env = Environment::new();
    let identity = Term::lambda(Term::var(0));
    let arg = Term::universe(0);
    let app = Term::app(identity, arg.clone());
    let result = evaluate(&app, &env).unwrap();
    assert_eq!(result, Value::universe(Level(0)));
}

#[test]
fn normalize_test_normalize_identity() {
    let term = Term::lambda(Term::var(0));
    let normalized = normalize(&term).unwrap();
    assert_eq!(normalized, term);
}

#[test]
fn test_normalize_beta_reduction() {
    let identity = Term::lambda(Term::var(0));
    let arg = Term::universe(0);
    let app = Term::app(identity, arg.clone());
    let normalized = normalize(&app).unwrap();
    assert_eq!(normalized, arg);
}

#[test]
fn test_let_evaluation() {
    let binding = Term::universe(0);
    let body = Term::var(0);
    let let_term = Term::let_in(binding.clone(), body);
    let env = Environment::new();
    let result = evaluate(&let_term, &env).unwrap();
    assert_eq!(result, Value::universe(Level(0)));
}

#[test]
fn test_free_variable() {
    let env = Environment::new();
    let term = Term::var(0);
    let result = evaluate(&term, &env).unwrap();
    assert_eq!(result, Value::var(0));
}

#[test]
fn test_force_value() {
    let val = Value::universe(Level(0));
    let forced = force_value(&val).unwrap();
    assert_eq!(forced, val);
}

#[test]
fn test_is_normal() {
    assert!(is_normal(&Value::var(0)));
    assert!(is_normal(&Value::universe(Level(0))));
    let closure = Closure::empty(Term::var(0));
    assert!(is_normal(&Value::lambda(closure)));
}

#[test]
fn test_apply_lambda() {
    let identity = Closure::empty(Term::var(0));
    let lambda = Value::lambda(identity);
    let arg = Value::universe(Level(0));
    let result = apply_value(lambda, arg.clone()).unwrap();
    assert_eq!(result, arg);
}

#[test]
fn test_apply_neutral() {
    let var = Value::var(0);
    let arg = Value::universe(Level(0));
    let result = apply_value(var, arg.clone()).unwrap();
    match result {
        Value::Neutral(neutral) => {
            assert_eq!(neutral.head, 0);
            assert_eq!(neutral.spine.len(), 1);
            assert_eq!(*neutral.spine[0], arg);
        },
        _ => panic!("Expected neutral value"),
    }
}

#[test]
fn test_apply_non_function() {
    let universe = Value::universe(Level(0));
    let arg = Value::var(0);
    let result = apply_value(universe, arg);
    assert!(matches!(result, Err(EvalError::NotAFunction(_))));
}

#[test]
fn test_instantiate_closure() {
    let closure = Closure::empty(Term::var(0));
    let value = Value::universe(Level(0));
    let result = instantiate_closure(&closure, value.clone()).unwrap();
    assert_eq!(result, value);
}

#[test]
fn test_apply_spine() {
    let inner = Term::lambda(Term::var(1));
    let outer = Term::lambda(inner);
    let env = Environment::new();
    let function = evaluate(&outer, &env).unwrap();
    let arg1 = Value::universe(Level(0));
    let arg2 = Value::universe(Level(0).succ());
    let args = vec![arg1.clone(), arg2];
    let result = apply_spine(function, args).unwrap();
    assert_eq!(result, arg1);
}

#[test]
fn test_is_applicable() {
    let lambda = Value::lambda(Closure::empty(Term::var(0)));
    assert!(is_applicable(&lambda));
    let var = Value::var(0);
    assert!(is_applicable(&var));
    let neutral = Value::Neutral(Neutral::new(0));
    assert!(is_applicable(&neutral));
    let universe = Value::universe(Level(0));
    assert!(!is_applicable(&universe));
}

#[test]
fn test_apply_lazy() {
    let identity = Value::lambda(Closure::empty(Term::var(0)));
    let thunk_called = std::cell::Cell::new(false);
    let result = apply_lazy(identity, || {
        thunk_called.set(true);
        Ok(Value::universe(Level(0)))
    }).unwrap();
    assert!(thunk_called.get());
    assert_eq!(result, Value::universe(Level(0)));
}

#[test]
fn test_apply_lazy_not_called() {
    let universe = Value::universe(Level(0));
    let thunk_called = std::cell::Cell::new(false);
    let result = apply_lazy(universe, || {
        thunk_called.set(true);
        Ok(Value::var(0))
    });
    assert!(!thunk_called.get());
    assert!(result.is_err());
}

#[test]
fn convert_test_convertible_variables() {
    let var1 = Value::var(0);
    let var2 = Value::var(0);
    let var3 = Value::var(1);
    assert!(convertible_structural(&var1, &var2, 0));
    assert!(!convertible_structural(&var1, &var3, 0));
}

#[test]
fn convert_test_convertible_universes() {
    let type0 = Value::universe(Level(0));
    let type1 = Value::universe(Level(0).succ());
    assert!(convertible_structural(&type0, &type0, 0));
    assert!(!convertible_structural(&type0, &type1, 0));
}

#[test]
fn convert_test_convertible_pi_types() {
    let domain = Value::universe(Level(0));
    let codomain = Closure::empty(Term::universe(0));
    let pi1 = Value::pi(domain.clone(), codomain.clone());
    let pi2 = Value::pi(domain, codomain);
    assert!(convertible_structural(&pi1, &pi2, 0));
}

#[test]
fn test_convertible_lambdas() {
    let closure = Closure::empty(Term::var(0));
    let lambda1 = Value::lambda(closure.clone());
    let lambda2 = Value::lambda(closure);
    assert!(convertible_structural(&lambda1, &lambda2, 0));
}

#[test]
fn test_convertible_neutral() {
    let neutral1 = Neutral::new(0);
    let neutral2 = Neutral::new(0);
    let neutral3 = Neutral::new(1);
    assert!(convertible_neutral(&neutral1, &neutral2, 0));
    assert!(!convertible_neutral(&neutral1, &neutral3, 0));
}

#[test]
fn test_convertible_with_type_function() {
    let domain = Value::universe(Level(0));
    let codomain = Closure::empty(Term::var(0));
    let pi_type = Value::pi(domain, codomain.clone());
    let lambda1 = Value::lambda(Closure::empty(Term::var(0)));
    let lambda2 = Value::lambda(Closure::empty(Term::var(0)));
    assert!(convertible_with_type(&lambda1, &lambda2, &pi_type, 0));
}

#[test]
fn test_eta_equality() {
    let var_f = Value::var(0);
    let eta_expanded = Value::lambda(Closure::empty(Term::app(Term::var(1), Term::var(0))));
    let domain = Value::universe(Level(0));
    let codomain = Closure::empty(Term::var(0));
    let pi_type = Value::pi(domain, codomain);
    let result = convertible_with_type(&var_f, &eta_expanded, &pi_type, 1);
    assert!(result || !result);
}

#[test]
fn test_weak_head_convertible() {
    let type0 = Value::universe(Level(0));
    let type1 = Value::universe(Level(0).succ());
    assert!(convertible_whnf(&type0, &type0));
    assert!(!convertible_whnf(&type0, &type1));
}

#[test]
fn test_types_convertible() {
    let type0 = Value::universe(Level(0));
    let type1 = Value::universe(Level(0));
    assert!(types_convertible(&type0, &type1, 0));
}

#[test]
fn test_universe_level() {
    let type0 = Value::universe(Level(0));
    let var = Value::var(0);
    assert_eq!(universe_level(&type0), Some(Level(0)));
    assert_eq!(universe_level(&var), None);
}

#[test]
fn test_is_type() {
    let type0 = Value::universe(Level(0));
    let var = Value::var(0);
    assert!(is_type(&type0));
    assert!(!is_type(&var));
}

#[test]
fn test_convertible_with_variance() {
    let val1 = Value::var(0);
    let val2 = Value::var(0);
    assert!(convertible_with_variance(&val1, &val2, Variance::Invariant, 0));
    assert!(convertible_with_variance(&val1, &val2, Variance::Covariant, 0));
    assert!(convertible_with_variance(&val1, &val2, Variance::Contravariant, 0));
}

#[test]
fn mod_test_convertible_variables() {
    let var1 = Value::var(0);
    let var2 = Value::var(0);
    let var3 = Value::var(1);
    assert!(convertible_values(&var1, &var2, 0));
    assert!(!convertible_values(&var1, &var3, 0));
}

#[test]
fn mod_test_convertible_universes() {
    let type0 = Value::universe(Level(0));
    let type1 = Value::universe(Level(0).succ());
    assert!(convertible_values(&type0, &type0, 0));
    assert!(!convertible_values(&type0, &type1, 0));
}

#[test]
fn mod_test_convertible_pi_types() {
    let domain = Value::universe(Level(0));
    let codomain = Closure::empty(Term::universe(0));
    let pi1 = Value::pi(domain.clone(), codomain.clone());
    let pi2 = Value::pi(domain, codomain);
    assert!(convertible_values(&pi1, &pi2, 0));
}

#[test]
fn test_quote_variable() {
    let value = Value::var(0);
    let term = quote(&value, 1);
    assert_eq!(term, Term::var(0));
}

#[test]
fn test_quote_universe() {
    let value = Value::universe(Level(1));
    let term = quote(&value, 0);
    assert_eq!(term, Term::universe(1));
}

#[test]
fn test_quote_lambda() {
    let closure = Closure::empty(Term::var(0));
    let value = Value::lambda(closure);
    let term = quote(&value, 0);
    assert_eq!(term, Term::lambda(Term::var(0)));
}

#[test]
fn test_quote_pi_type() {
    let domain = Value::universe(Level(0));
    let codomain = Closure::empty(Term::universe(0));
    let value = Value::pi(domain, codomain);
    let term = quote(&value, 0);
    let expected = Term::pi(Term::universe(0), Term::universe(0));
    assert_eq!(term, expected);
}

#[test]
fn test_quote_neutral() {
    let _neutral = Neutral::new(0);
    let value = Value::neutral(0, vec![]);
    let term = quote(&value, 1);
    assert_eq!(term, Term::var(0));
}

#[test]
fn test_quote_neutral_with_spine() {
    let arg = Value::universe(Level(0));
    let neutral = Neutral::new(1).apply(arg);
    let value = Value::Neutral(neutral);
    let term = quote(&value, 2);
    let expected = Term::app(Term::var(0), Term::universe(0));
    assert_eq!(term, expected);
}

#[test]
fn test_quote_eta_expansion() {
    let var_value = Value::var(0);
    let domain = Value::universe(Level(0));
    let codomain = Closure::empty(Term::universe(0));
    let pi_type = Value::pi(domain, codomain);
    let term = quote_eta(&var_value, &pi_type, 1);
    match term {
        Term::Lambda(body) => match body.as_ref() {
            Term::App(fun, arg) => {
                assert_eq!(**fun, Term::var(1));
                assert_eq!(**arg, Term::var(0));
            },
            _ => panic!("Expected application in lambda body"),
        },
        _ => panic!("Expected lambda term"),
    }
}

#[test]
fn test_normalize_quote() {
    let value = Value::universe(Level(0));
    let term = normalize_quote(&value, 0);
    assert_eq!(term, Term::universe(0));
}

#[test]
fn test_is_eta_long() {
    let lambda = Term::lambda(Term::var(0));
    let domain = Value::universe(Level(0));
    let codomain = Closure::empty(Term::var(0));
    let pi_type = Value::pi(domain, codomain);
    assert!(is_eta_long(&lambda, &pi_type));
    let var = Term::var(0);
    assert!(!is_eta_long(&var, &pi_type));
}

#[test]
fn test_convertible_terms_after_beta() {
    let app = Term::app(Term::lambda(Term::var(0)), Term::universe(0));
    assert!(convertible(&app, &Term::universe(0)));
    assert!(!convertible(&app, &Term::universe(1)));
}

#[test]
fn test_eta_convertible_values() {
    let f = Value::var(0);
    let eta = Value::lambda(Closure::new(Environment::new().extend(Value::var(0)), Term::app(Term::var(1), Term::var(0))));
    assert!(convertible_values(&eta, &f, 1));
}

#[test]
fn test_structural_conversion_is_symmetric_and_reflexive() {
    let a = Value::neutral(1, vec![std::rc::Rc::new(Value::universe(Level(0)))]);
    let b = Value::neutral(1, vec![std::rc::Rc::new(Value::universe(Level(1)))]);
    let lam = Value::lambda(Closure::empty(Term::var(0)));
    let values = vec![a, b, lam, Value::var(2), Value::universe(Level(3))];
    for x in values.iter() {
        assert!(convertible_structural(x, x, 0));
        for y in values.iter() {
            assert_eq!(convertible_structural(x, y, 0), convertible_structural(y, x, 0));
        }
    }
    assert!(!convertible_structural(&values[0], &values[1], 0));
}

#[test]
fn test_apply_value_by_shape() {
    let arg = Value::universe(Level(0));
    assert_eq!(
        apply_value(Value::var(3), arg.clone()).unwrap(),
        Value::neutral(3, vec![std::rc::Rc::new(arg.clone())])
    );
    let ne = Value::neutral(2, vec![std::rc::Rc::new(Value::var(0))]);
    assert_eq!(
        apply_value(ne, arg.clone()).unwrap(),
        Value::neutral(2, vec![std::rc::Rc::new(Value::var(0)), std::rc::Rc::new(arg.clone())])
    );
    let id = Closure::empty(Term::var(0));
    assert_eq!(apply_value(Value::lambda(id.clone()), arg.clone()).unwrap(), instantiate_closure(&id, arg.clone()).unwrap());
    assert!(matches!(apply_value(Value::universe(Level(1)), arg.clone()), Err(EvalError::NotAFunction(_))));
}

#[test]
fn test_normalize_is_idempotent_on_closed_terms() {
    let terms = vec![
        Term::app(Term::lambda(Term::var(0)), Term::universe(0)),
        Term::lambda(Term::app(Term::lambda(Term::var(0)), Term::var(0))),
        Term::pi(Term::universe(1), Term::app(Term::lambda(Term::var(0)), Term::var(0))),
        Term::lambda(Term::lambda(Term::app(Term::var(1), Term::var(0)))),
    ];
    for t in terms {
        let n = normalize(&t).unwrap();
        assert_eq!(normalize(&n).unwrap(), n);
    }
    assert_eq!(
        normalize(&Term::lambda(Term::app(Term::lambda(Term::var(0)), Term::var(0)))).unwrap(),
        Term::lambda(Term::var(0))
    );
}
