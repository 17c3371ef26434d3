use ttt::kernel::{Term, Level, Value};
use ttt::kernel::properties::{verify_substitution_lemma, verify_canonicity, verify_weak_normalization,
    verify_universe_consistency, verify_church_rosser, verify_all_properties, verify_subject_reduction,
    verify_type_preservation_substitution, PropertyError};
use ttt::typeck::Context;

#[test]
fn test_substitution_lemma_simple() {
    let term = Term::var(0);
    let s = Term::universe(0);
    let r = Term::var(1);
    assert!(verify_substitution_lemma(&term, 0, 1, &s, &r).is_ok());
}

#[test]
fn test_canonicity_universe() {
    let term = Term::universe(0);
    let typ = Value::universe(Level(1));
    assert!(verify_canonicity(&term, &typ).is_ok());
}

#[test]
fn test_weak_normalization() {
    let term = Term::universe(0);
    assert!(verify_weak_normalization(&term, 10).is_ok());
}

#[test]
fn test_universe_consistency() {
    assert!(verify_universe_consistency().is_ok());
}

#[test]
fn test_church_rosser_identity() {
    let identity = Term::lambda(Term::var(0));
    let arg = Term::universe(0);
    let app = Term::app(identity, arg.clone());
    assert!(verify_church_rosser(&app, &arg, &arg).is_ok());
}

#[test]
fn test_comprehensive_verification() {
    let results = verify_all_properties();
    assert!(results.len() > 0);
}

#[test]
fn test_property_failures() {
    assert_eq!(
        verify_canonicity(&Term::var(0), &Value::universe(Level(1))),
        Err(PropertyError::Canonicity("Term is not closed".to_string()))
    );
    assert_eq!(
        verify_weak_normalization(&Term::universe(0), 0),
        Err(PropertyError::EvalError("Normalization did not terminate within 0 steps".to_string()))
    );
    let ctx = Context::empty();
    assert!(verify_subject_reduction(&ctx, &Term::universe(0), &Term::universe(0), &Value::universe(Level(1))).is_ok());
    assert!(verify_subject_reduction(&ctx, &Term::universe(0), &Term::universe(1), &Value::universe(Level(1))).is_err());
    assert!(verify_church_rosser(&Term::universe(0), &Term::universe(0), &Term::universe(1)).is_err());
    let r = verify_type_preservation_substitution(&ctx, &Term::universe(0), &Value::universe(Level(1)), 0, &Term::universe(0), &Value::universe(Level(1)));
    assert!(r.is_ok());
}
