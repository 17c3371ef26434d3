use ttt::kernel::{Term, Level, Value, Closure};
use ttt::eval::quotation::{quote_eta, is_eta_long};
use ttt::kernel::subst::{Substitution, apply_substitution};
use ttt::lean::translation::LeanTranslator;
use ttt::term::Term as LTerm;
use ttt::nbe::Normalizer;

#[test]
fn test_shift_then_unshift_gives_term_back() {
    let t = LTerm::app(LTerm::var(3), LTerm::refl(LTerm::var(1)));
    let shifted = t.shift(2, 1);
    assert_eq!(*shifted, *LTerm::app(LTerm::var(5), LTerm::refl(LTerm::var(3))));
    assert_eq!(*shifted.shift(-2, 1), *t);
    let under = LTerm::lambda(None, LTerm::app(LTerm::var(0), LTerm::var(4)));
    assert_eq!(*under.shift(3, 2).shift(-3, 2), *under);
}

#[test]
fn test_substituting_a_variable_twice() {
    let replacement = LTerm::var(42);
    for v in 0..6u32 {
        let once = LTerm::var(v).subst(3, &replacement);
        let twice = once.subst(3, &replacement);
        assert_eq!(*once, *twice);
    }
}

#[test]
fn test_alpha_equivalence_is_reflexive() {
    let mut normalizer = Normalizer::new();
    let t = LTerm::app(LTerm::lambda(None, LTerm::var(0)), LTerm::universe(1));
    assert!(normalizer.alpha_equiv(&t, &t));
    let u = LTerm::universe(1);
    assert!(normalizer.alpha_equiv(&t, &u));
    assert!(normalizer.alpha_equiv(&u, &t));
}

#[test]
fn test_roundtrip_on_a_fresh_translator() {
    let terms = vec![
        Term::universe(3),
        Term::meta(1234567),
        Term::lambda(Term::var(0)),
        Term::pi(Term::universe(0), Term::pi(Term::var(0), Term::var(1))),
        Term::let_in(Term::meta(2), Term::lambda(Term::app(Term::var(1), Term::var(0)))),
        Term::app(Term::lambda(Term::lambda(Term::var(1))), Term::universe(19)),
    ];
    for t in terms {
        let mut translator = LeanTranslator::new();
        assert_eq!(translator.verify_roundtrip(&t), Ok(true));
        let lean = translator.to_lean(&t).unwrap();
        let mut other = LeanTranslator::new();
        let lean2 = other.to_lean(&t).unwrap();
        assert_eq!(lean, lean2);
        assert_eq!(other.from_lean(&lean2), Ok(t.clone()));
    }
}

#[test]
fn test_roundtrip_fails_only_where_translation_fails() {
    let mut translator = LeanTranslator::new();
    assert!(translator.verify_roundtrip(&Term::var(0)).is_err());
    assert!(translator.verify_roundtrip(&Term::universe(20)).is_err());
}

#[test]
fn test_second_translation_comes_from_the_cache() {
    let mut translator = LeanTranslator::new();
    let t = Term::lambda(Term::var(0));
    let first = translator.to_lean(&t).unwrap();
    let size = translator.statistics().to_lean_cache_size;
    let second = translator.to_lean(&t).unwrap();
    assert_eq!(first, second);
    assert_eq!(translator.statistics().to_lean_cache_size, size);
}

#[test]
fn test_normalizing_a_normal_form_gives_it_back() {
    let terms = vec![
        LTerm::app(LTerm::var(2), LTerm::refl(LTerm::fst(LTerm::pair(LTerm::universe(0), LTerm::var(1))))),
        LTerm::snd(LTerm::universe(3)),
        LTerm::fst(LTerm::app(LTerm::refl(LTerm::var(0)), LTerm::universe(1))),
    ];
    for t in terms {
        let once = Normalizer::new().normalize(&t);
        let twice = Normalizer::new().normalize(&once);
        assert_eq!(*once, *twice);
    }
    let first = Normalizer::new().normalize(&terms_first());
    assert_eq!(*first, *LTerm::app(LTerm::var(2), LTerm::refl(LTerm::universe(0))));
}

fn terms_first() -> std::sync::Arc<LTerm> {
    LTerm::app(LTerm::var(2), LTerm::refl(LTerm::fst(LTerm::pair(LTerm::universe(0), LTerm::var(1)))))
}

#[test]
fn test_composition_on_a_term_without_binders_applies_in_turn() {
    let first = Substitution::single(0, Term::var(1));
    let second = Substitution::single(1, Term::universe(0));
    let composed = second.compose(&first);
    let t = Term::app(Term::var(0), Term::app(Term::var(1), Term::var(2)));
    let in_turn = apply_substitution(&apply_substitution(&t, &first), &second);
    assert_eq!(apply_substitution(&t, &composed), in_turn);
    assert_eq!(in_turn, Term::app(Term::universe(0), Term::app(Term::universe(0), Term::var(2))));
}

#[test]
fn test_eta_quotation_at_a_pi_type_is_eta_long() {
    let pi_type = Value::pi(Value::universe(Level(0)), Closure::empty(Term::universe(0)));
    for v in [Value::var(0), Value::universe(Level(2))] {
        let quoted = quote_eta(&v, &pi_type, 1);
        assert!(matches!(quoted, Term::Lambda(_)));
        assert!(is_eta_long(&quoted, &pi_type));
    }
    let plain = quote_eta(&Value::var(0), &Value::universe(Level(0)), 1);
    assert!(is_eta_long(&plain, &Value::universe(Level(0))));
}
