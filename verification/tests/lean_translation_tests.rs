use ttt::kernel::Term;
use ttt::lean::types::{LeanTerm, LeanLevel, LeanName};
use ttt::lean::translation::LeanTranslator;
use ttt::lean::context::TranslationContext;
use ttt::lean::error::LeanError;

#[test]
fn test_variable_translation() {
    let mut translator = LeanTranslator::new();

    // Simple variable should fail without context
    let var_term = Term::var(0);
    let result = translator.to_lean(&var_term);
    assert!(result.is_err());
}

#[test]
fn test_universe_translation() {
    let mut translator = LeanTranslator::new();

    let universe_term = Term::universe(2);
    let lean_term = translator.to_lean(&universe_term).expect("Universe translation failed");

    match &lean_term {
        LeanTerm::Sort(level) => {
            assert_eq!(level.to_nat(), Some(2));
        },
        _ => panic!("Expected Sort term"),
    }

    // Test roundtrip
    let reconstructed = translator.from_lean(&lean_term).expect("Reverse translation failed");
    assert!(translator.structurally_equivalent(&universe_term, &reconstructed));
}

#[test]
fn test_lambda_translation() {
    let mut translator = LeanTranslator::new();

    // λx.x (identity function)
    let identity = Term::lambda(Term::var(0));
    let lean_term = translator.to_lean(&identity).expect("Lambda translation failed");

    match lean_term {
        LeanTerm::Lambda(name, _ty, body) => {
            assert!(!name.is_anonymous());
            match &*body {
                LeanTerm::Var(var_name) => {
                    assert_eq!(&name, var_name);
                },
                _ => panic!("Expected variable in lambda body"),
            }
        },
        _ => panic!("Expected Lambda term"),
    }
}

#[test]
fn test_pi_translation() {
    let mut translator = LeanTranslator::new();

    // Π(A : Type₀). A → A
    let pi_term = Term::pi(
        Term::universe(0),
        Term::pi(Term::var(0), Term::var(1))
    );

    let lean_term = translator.to_lean(&pi_term).expect("Pi translation failed");

    match lean_term {
        LeanTerm::Pi(_, domain, codomain) => {
            assert!(domain.is_sort());
            assert!(codomain.is_pi());
        },
        _ => panic!("Expected Pi term"),
    }
}

#[test]
fn test_application_translation() {
    let mut translator = LeanTranslator::new();

    // f x (as closed term with metavariables)
    let app_term = Term::app(Term::meta(1), Term::meta(2));
    let lean_term = translator.to_lean(&app_term).expect("Application translation failed");

    match &lean_term {
        LeanTerm::App(f, x) => {
            assert!(f.is_const());
            assert!(x.is_const());
        },
        _ => panic!("Expected App term"),
    }

    // Test roundtrip
    let reconstructed = translator.from_lean(&lean_term).expect("Reverse translation failed");
    assert!(translator.structurally_equivalent(&app_term, &reconstructed));
}

#[test]
fn test_meta_translation() {
    let mut translator = LeanTranslator::new();

    let meta_term = Term::meta(42);
    let lean_term = translator.to_lean(&meta_term).expect("Meta translation failed");

    match &lean_term {
        LeanTerm::Const(name) => {
            assert_eq!(name.as_str(), "?m42");
        },
        _ => panic!("Expected Const term for metavariable"),
    }

    // Test roundtrip
    let reconstructed = translator.from_lean(&lean_term).expect("Reverse translation failed");
    assert!(translator.structurally_equivalent(&meta_term, &reconstructed));
}

#[test]
fn test_caching() {
    let mut translator = LeanTranslator::new();

    let term = Term::universe(0);

    // First translation
    let _ = translator.to_lean(&term).expect("Translation failed");
    assert_eq!(translator.statistics().to_lean_cache_size, 1);

    // Second translation should hit cache
    let _ = translator.to_lean(&term).expect("Translation failed");
    assert_eq!(translator.statistics().to_lean_cache_size, 1);
}

#[test]
fn test_complex_term() {
    let mut translator = LeanTranslator::new();

    // λf.λx.f x (combinator S applied to f and x)
    let complex_term = Term::lambda(
        Term::lambda(
            Term::app(Term::var(1), Term::var(0))
        )
    );

    let lean_term = translator.to_lean(&complex_term).expect("Complex translation failed");

    // Verify it's a nested lambda
    match lean_term {
        LeanTerm::Lambda(_, _, body) => {
            match &*body {
                LeanTerm::Lambda(_, _, inner_body) => {
                    match &**inner_body {
                        LeanTerm::App(_, _) => {}, // Expected structure
                        _ => panic!("Expected application in inner lambda"),
                    }
                },
                _ => panic!("Expected nested lambda"),
            }
        },
        _ => panic!("Expected outer lambda"),
    }
}

#[test]
fn test_global_constants() {
    let mut translator = LeanTranslator::new();

    translator.register_constant(String::from("Nat"), LeanName::new("Nat"));
    assert_eq!(translator.statistics().global_constants, 1);

    // Test that global registry is properly maintained
    assert!(translator.lookup_constant(&String::from("Nat")).is_some());
    assert!(translator.reverse_lookup_constant(&LeanName::new("Nat")).is_some());
}

// ---------------------------------------------------------------------
// Further cases
// ---------------------------------------------------------------------

#[test]
fn test_lambda_names_and_roundtrip() {
    let mut translator = LeanTranslator::new();
    let term = Term::lambda(Term::lambda(Term::app(Term::var(1), Term::var(0))));
    let lean = translator.to_lean(&term).unwrap();
    let expected = LeanTerm::lambda(
        LeanName::new("_anon_1"),
        LeanTerm::sort(LeanLevel::zero()),
        LeanTerm::lambda(
            LeanName::new("_anon_2"),
            LeanTerm::sort(LeanLevel::zero()),
            LeanTerm::app(LeanTerm::var(LeanName::new("_anon_1")), LeanTerm::var(LeanName::new("_anon_2"))),
        ),
    );
    assert_eq!(lean, expected);
    assert_eq!(translator.from_lean(&lean).unwrap(), term);
    assert_eq!(translator.verify_roundtrip(&term), Ok(true));
}

#[test]
fn test_translation_error_messages() {
    let mut translator = LeanTranslator::new();
    assert_eq!(
        translator.to_lean(&Term::var(3)),
        Err(LeanError::Translation(String::from(
            "Variable translation failed: Name resolution failed: De Bruijn index 3 out of bounds (depth: 0)"
        )))
    );
    assert_eq!(
        translator.to_lean(&Term::universe(25)),
        Err(LeanError::Translation(String::from(
            "Universe level translation failed: Universe level 25 not supported"
        )))
    );
    let free = LeanTerm::var(LeanName::new("y"));
    assert_eq!(
        translator.from_lean(&free),
        Err(LeanError::Translation(String::from(
            "Variable translation failed: Name resolution failed: No TTT name mapping for Lean name: y"
        )))
    );
}

#[test]
fn test_constants_from_lean() {
    let mut translator = LeanTranslator::new();
    assert_eq!(translator.from_lean(&LeanTerm::const_(LeanName::new("?m+7"))), Ok(Term::meta(7)));
    assert_eq!(
        translator.from_lean(&LeanTerm::const_(LeanName::new("?mx"))),
        Err(LeanError::Translation(String::from("Invalid metavariable: ?mx")))
    );
    assert_eq!(
        translator.from_lean(&LeanTerm::const_(LeanName::new("?m"))),
        Err(LeanError::Translation(String::from("Invalid metavariable: ?m")))
    );
    assert_eq!(
        translator.from_lean(&LeanTerm::const_(LeanName::new("?m99999999999999999999999"))),
        Err(LeanError::Translation(String::from("Invalid metavariable: ?m99999999999999999999999")))
    );
    assert_eq!(
        translator.from_lean(&LeanTerm::const_(LeanName::new("Nat"))),
        Err(LeanError::UnsupportedTerm(String::from("Global constant: Nat")))
    );
    let param = LeanTerm::sort(LeanLevel::param(LeanName::new("u")));
    assert_eq!(
        translator.from_lean(&param),
        Err(LeanError::Translation(String::from("Cannot convert parametric level to concrete level")))
    );
}

#[test]
fn test_translation_with_explicit_context() {
    let mut translator = LeanTranslator::new();
    let mut ctx = TranslationContext::new();
    let named = LeanTerm::lambda(
        LeanName::new("x"),
        LeanTerm::sort(LeanLevel::zero()),
        LeanTerm::let_in(
            LeanName::new("y"),
            LeanTerm::sort(LeanLevel::zero()),
            LeanTerm::var(LeanName::new("x")),
            LeanTerm::var(LeanName::new("x")),
        ),
    );
    let term = translator.from_lean_with_context(&named, &mut ctx).unwrap();
    assert_eq!(term, Term::lambda(Term::let_in(Term::var(0), Term::var(1))));
    assert_eq!(ctx.binding_depth(), 0);
    let back = translator.to_lean_with_context(&term, &mut ctx).unwrap();
    assert!(back.is_lambda());
    translator.clear_caches();
    assert_eq!(translator.statistics().to_lean_cache_size, 0);
}
