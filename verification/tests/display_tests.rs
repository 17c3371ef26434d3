use ttt::lean::types::{LeanTerm, LeanLevel, LeanName};
use ttt::kernel::{Level, Value, Environment, Neutral};
use ttt::kernel::name::{Name, NameContext};
use ttt::kernel::properties::PropertyError;
use ttt::eval::EvalError;
use ttt::term::Term as LTerm;
use ttt::check::TypeError;
use ttt::lean::error::LeanError;

#[test]
fn test_eval_error_texts() {
    assert_eq!(EvalError::UnboundVariable(3).to_display_string(), "Unbound variable: #3");
    assert_eq!(EvalError::TypeMismatch(String::from("bad")).to_display_string(), "Type mismatch: bad");
    assert_eq!(EvalError::NotAFunction(Value::var(2)).to_display_string(), "Not a function: #2");
    assert_eq!(EvalError::LevelOverflow.to_display_string(), "Universe level overflow");
}

#[test]
fn test_property_error_texts() {
    assert_eq!(PropertyError::ChurchRosser(String::from("x")).to_display_string(), "Church-Rosser: x");
    assert_eq!(PropertyError::EvalError(String::from("y")).to_display_string(), "Evaluation error: y");
}

#[test]
fn test_environment_and_neutral_texts() {
    let env = Environment::new().extend(Value::universe(Level(0))).extend(Value::var(1));
    let text = env.to_display_string();
    assert!(text.starts_with('[') && text.ends_with(']'));
    assert!(text.contains(", "));
    assert_eq!(Environment::new().to_display_string(), "[]");
    let n = Neutral::new(2).apply(Value::var(0));
    assert_eq!(n.to_display_string(), "#2 #0");
}

#[test]
fn test_name_display_texts() {
    assert_eq!(Name::user("x").to_display_string(), "x");
    assert_eq!(Name::generated("y", 4).to_display_string(), "y#4");
    let ctx = NameContext::new().bind(Name::user("a")).bind(Name::generated("b", 1));
    assert_eq!(ctx.to_display_string(), "[a, b#1]");
    assert_eq!(NameContext::new().to_display_string(), "[]");
}

#[test]
fn test_legacy_term_texts() {
    let pi = LTerm::pi(Some(String::from("x")), LTerm::universe(0), LTerm::var(0));
    assert_eq!(pi.to_display_string(), "(x: Type0) -> #0");
    let arrow = LTerm::pi(None, LTerm::universe(1), LTerm::universe(0));
    assert_eq!(arrow.to_display_string(), "Type1 -> Type0");
    let lam = LTerm::lambda(Some(String::from("y")), LTerm::var(0));
    assert_eq!(lam.to_display_string(), "λy. #0");
    let pair = LTerm::pair(LTerm::var(0), LTerm::var(1));
    assert_eq!(pair.to_display_string(), "(#0, #1)");
    assert_eq!(LTerm::fst(pair.clone()).to_display_string(), "π₁((#0, #1))");
    let eq = LTerm::id(LTerm::universe(0), LTerm::var(0), LTerm::var(1));
    assert_eq!(eq.to_display_string(), "#0 ≡[Type0] #1");
    assert_eq!(LTerm::refl(LTerm::var(2)).to_display_string(), "refl(#2)");
    let sig = LTerm::sigma(None, LTerm::var(0), LTerm::var(1));
    assert_eq!(sig.to_display_string(), "#0 × #1");
}

#[test]
fn test_type_error_texts() {
    assert_eq!(TypeError::InvalidUniverse(5, 3).to_display_string(), "Invalid universe level 5 (max: 3)");
    assert_eq!(TypeError::UnboundVariable(7).to_display_string(), "Unbound variable: #7");
    assert_eq!(
        TypeError::NotAPair(LTerm::universe(0)).to_display_string(),
        "Cannot project from non-pair type: Type0"
    );
}

#[test]
fn test_lean_error_texts() {
    assert_eq!(LeanError::UniverseLevel(30).to_display_string(), "Universe level 30 not supported");
    assert_eq!(
        LeanError::TypeMismatch { expected: String::from("A"), actual: String::from("B") }.to_display_string(),
        "Type mismatch: expected A, got B"
    );
}

#[test]
fn test_lean_term_display_texts() {
    let three = LeanLevel::from_nat(3);
    assert_eq!(three.to_display_string(), "3");
    let odd = LeanLevel::Succ(Box::new(LeanLevel::Param(LeanName::new("u"))));
    assert_eq!(odd.to_display_string(), "succ(u)");
    let mx = LeanLevel::Max(Box::new(LeanLevel::Zero), Box::new(LeanLevel::Param(LeanName::new("v"))));
    assert_eq!(mx.to_display_string(), "max(0, v)");
    let lam = LeanTerm::Lambda(
        LeanName::new("x"),
        Box::new(LeanTerm::Sort(LeanLevel::Zero)),
        Box::new(LeanTerm::App(
            Box::new(LeanTerm::Var(LeanName::new("x"))),
            Box::new(LeanTerm::Const(LeanName::new("Nat"))),
        )),
    );
    assert_eq!(lam.to_display_string(), "(λ x : Sort 0, (x Nat))");
    let pi = LeanTerm::Pi(LeanName::Idx(0), Box::new(LeanTerm::Sort(three)), Box::new(LeanTerm::Var(LeanName::Idx(0))));
    assert_eq!(pi.to_display_string(), "(Π var_0 : Sort 3, var_0)");
    let let_in = LeanTerm::Let(
        LeanName::new("y"),
        Box::new(LeanTerm::Sort(LeanLevel::Zero)),
        Box::new(LeanTerm::Const(LeanName::new("a"))),
        Box::new(LeanTerm::Var(LeanName::new("y"))),
    );
    assert_eq!(let_in.to_display_string(), "(let y : Sort 0 := a in y)");
}
