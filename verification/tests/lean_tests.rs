use ttt::lean::types::{LeanTerm, LeanLevel, LeanName};
use ttt::lean::context::TranslationContext;
use ttt::lean::error::LeanError;
use ttt::kernel::name::Name;

fn n(s: &str) -> LeanName {
    LeanName::new(s)
}

#[test]
fn test_lean_level() {
    let zero = LeanLevel::zero();
    assert!(zero.is_zero());
    assert_eq!(zero.to_nat(), Some(0));
    let one = LeanLevel::succ(zero.clone());
    assert!(!one.is_zero());
    assert_eq!(one.to_nat(), Some(1));
    let five = LeanLevel::from_nat(5);
    assert_eq!(five.to_nat(), Some(5));
}

#[test]
fn test_lean_name() {
    let name = LeanName::new("x");
    assert_eq!(name.as_str(), "x");
    assert!(!name.is_anonymous());
    let anon = LeanName::new("_");
    assert!(anon.is_anonymous());
}

#[test]
fn test_lean_term_construction() {
    let var_x = LeanTerm::var(n("x"));
    assert!(var_x.is_var());
    let type_0 = LeanTerm::sort(LeanLevel::zero());
    assert!(type_0.is_sort());
    let identity = LeanTerm::lambda(n("x"), type_0.clone(), var_x.clone());
    assert!(identity.is_lambda());
    let pi_type = LeanTerm::pi(n("A"), type_0, LeanTerm::pi(n("_"), var_x, LeanTerm::var(n("A"))));
    assert!(pi_type.is_pi());
}

#[test]
fn test_free_variables() {
    let term = LeanTerm::lambda(n("x"), LeanTerm::var(n("A")), LeanTerm::var(n("x")));
    let free_vars = term.free_vars();
    assert_eq!(free_vars.len(), 1);
    assert!(free_vars.contains(&LeanName::new("A")));
}

#[test]
fn test_substitution() {
    let term = LeanTerm::app(LeanTerm::var(n("f")), LeanTerm::var(n("x")));
    let substituted = term.substitute(&LeanName::new("x"), &LeanTerm::var(n("y")));
    match substituted {
        LeanTerm::App(f, x) => {
            assert_eq!(*f, LeanTerm::var(n("f")));
            assert_eq!(*x, LeanTerm::var(n("y")));
        },
        _ => panic!("Expected application"),
    }
}

#[test]
fn test_substitution_respects_shadowing() {
    let term = LeanTerm::lambda(n("x"), LeanTerm::var(n("x")), LeanTerm::var(n("x")));
    let substituted = term.substitute(&n("x"), &LeanTerm::var(n("y")));
    assert_eq!(substituted, LeanTerm::lambda(n("x"), LeanTerm::var(n("y")), LeanTerm::var(n("x"))));
}

#[test]
fn test_name_texts() {
    assert_eq!(LeanName::symbol(4).as_str(), "symbol_4");
    assert_eq!(LeanName::idx(10).to_string(), "var_10");
    assert!(LeanName::symbol(1).is_symbol());
    assert!(LeanName::idx(1).is_idx());
    assert_eq!(LeanLevel::max(LeanLevel::zero(), LeanLevel::zero()).to_nat(), None);
}

#[test]
fn test_binder_management() {
    let mut ctx = TranslationContext::new();
    assert_eq!(ctx.binding_depth(), 0);
    let ttt_name = Name::user("x");
    let lean_name = ctx.enter_binder(ttt_name.clone());
    assert_eq!(ctx.binding_depth(), 1);
    assert!(ctx.is_bound(&ttt_name));
    assert_eq!(ctx.lookup_name(&ttt_name), Some(&lean_name));
    assert_eq!(ctx.reverse_lookup_name(&lean_name), Some(&ttt_name));
    ctx.exit_binder();
    assert_eq!(ctx.binding_depth(), 0);
    assert!(!ctx.is_bound(&ttt_name));
}

#[test]
fn test_debruijn_conversion() {
    let mut ctx = TranslationContext::new();
    let x = Name::user("x");
    let y = Name::user("y");
    let lean_x = ctx.enter_binder(x.clone());
    let lean_y = ctx.enter_binder(y.clone());
    assert_eq!(ctx.debruijn_to_lean(0).unwrap(), lean_y);
    assert_eq!(ctx.debruijn_to_lean(1).unwrap(), lean_x);
    assert_eq!(ctx.lean_to_debruijn(&lean_y).unwrap(), 0);
    assert_eq!(ctx.lean_to_debruijn(&lean_x).unwrap(), 1);
}

#[test]
fn test_universe_levels() {
    let ctx = TranslationContext::new();
    assert_eq!(ctx.get_universe_level(0).unwrap(), LeanLevel::from_nat(0));
    assert_eq!(ctx.get_universe_level(5).unwrap(), LeanLevel::from_nat(5));
    assert!(ctx.get_universe_level(100).is_err());
}

#[test]
fn test_scoped_binder() {
    let mut ctx = TranslationContext::new();
    let result = ctx.with_binder(Name::user("x"), |ctx, lean_name| {
        assert_eq!(ctx.binding_depth(), 1);
        assert_eq!(lean_name.as_str(), "x");
        "test_result"
    });
    assert_eq!(result, "test_result");
    assert_eq!(ctx.binding_depth(), 0);
}

#[test]
fn context_test_fresh_name_generation() {
    let mut ctx = TranslationContext::new();
    let name1 = ctx.fresh_name("test");
    let name2 = ctx.fresh_name("test");
    assert_ne!(name1, name2);
    assert!(name1.as_str().starts_with("test_"));
    assert!(name2.as_str().starts_with("test_"));
}

#[test]
fn test_binder_name_clash_and_errors() {
    let mut ctx = TranslationContext::new();
    let first = ctx.enter_binder(Name::user("x"));
    let second = ctx.enter_binder(Name::generated("x", 9));
    assert_eq!(first.as_str(), "x");
    assert_eq!(second.as_str(), "x_1");
    let anon = ctx.enter_binder(Name::user("_"));
    assert_eq!(anon.as_str(), "_anon_2");
    assert_eq!(
        ctx.debruijn_to_lean(7),
        Err(LeanError::NameResolution("De Bruijn index 7 out of bounds (depth: 3)".to_string()))
    );
    assert_eq!(
        ctx.lean_to_debruijn(&LeanName::new("zzz")),
        Err(LeanError::NameResolution("No TTT name mapping for Lean name: zzz".to_string()))
    );
    ctx.reset();
    assert_eq!(ctx.binding_depth(), 0);
    assert_eq!(ctx.get_universe_level(19), Ok(LeanLevel::from_nat(19)));
    assert_eq!(ctx.get_universe_level(20), Err(LeanError::UniverseLevel(20)));
}
