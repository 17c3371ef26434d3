use std::sync::Arc;
use ttt::term::Term;
use ttt::types::{TypeEnv, Type0, Type1, Type2};
use ttt::check::TypeChecker;
use ttt::arena::Arena;
use ttt::nbe::Normalizer;
use ttt::compress::{TypeCompressible, CompressionContext, CompressedDatabase};

#[test]
fn test_arena_basic() {
    let mut arena = Arena::new();
    let term1 = Term::Var(0);
    let term2 = Term::Var(0);
    let handle1 = arena.intern(term1);
    let handle2 = arena.intern(term2);
    assert_eq!(handle1, handle2);
    assert_eq!(arena.len(), 1);
}

#[test]
fn test_arena_different_terms() {
    let mut arena = Arena::new();
    let term1 = Term::Var(0);
    let term2 = Term::Var(1);
    let handle1 = arena.intern(term1);
    let handle2 = arena.intern(term2);
    assert_ne!(handle1, handle2);
    assert_eq!(arena.len(), 2);
    let retrieved1 = arena.get(&handle1).unwrap();
    let retrieved2 = arena.get(&handle2).unwrap();
    assert_eq!(**retrieved1, Term::Var(0));
    assert_eq!(**retrieved2, Term::Var(1));
}

#[test]
fn check_test_infer_universe() {
    let mut checker = TypeChecker::new(10);
    let env = TypeEnv::new();
    let type0 = Term::universe(0);
    let result = checker.infer(&env, &type0).unwrap();
    assert_eq!(*result, Term::Universe(1));
}

#[test]
fn check_test_check_lambda() {
    let mut checker = TypeChecker::new(10);
    let env = TypeEnv::new();
    let type0 = Term::universe(0);
    let var0 = Term::var(0);
    let id_body = Term::lambda(None, var0);
    let id_type = Term::pi(None, type0.clone(), type0);
    let result = checker.check(&env, &id_body, &id_type);
    assert!(result.is_ok());
}

#[test]
fn test_universe_bound() {
    let mut checker = TypeChecker::new(1);
    let env = TypeEnv::new();
    assert!(checker.infer(&env, &Term::universe(1)).is_err());
    let pair_ty = Term::sigma(None, Term::universe(0), Term::universe(0));
    let pair = Term::pair(Term::universe(0), Term::universe(0));
    assert!(checker.check(&env, &pair, &pair_ty).is_err());
}

#[test]
fn test_compression_basic() {
    let term = Term::Var(42);
    let ty = Term::universe(0);
    let (compressed, proof) = term.compress(&ty);
    let decompressed = Term::decompress(compressed, proof, &ty);
    assert_eq!(term, decompressed);
}

#[test]
fn test_compression_context() {
    let mut ctx = CompressionContext::new();
    let term1 = Term::var(0);
    let term2 = Term::var(0);
    let idx1 = ctx.intern(term1.clone());
    let idx2 = ctx.intern(term2);
    assert_eq!(idx1, idx2);
    assert_eq!(ctx.len(), 1);
}

#[test]
fn test_compressed_database() {
    let mut db = CompressedDatabase::new();
    let term = Term::var(0);
    let ty = Term::universe(0);
    let idx = db.add_term(&term, &ty);
    let decompressed = db.decompress_term(idx, &ty).unwrap();
    assert_eq!(*term, decompressed);
}

#[test]
fn test_compression_roundtrip_application() {
    let term = Term::app(Term::fst(Term::var(3)), Term::universe(2));
    let ty = Term::universe(0);
    let (compressed, proof) = term.compress(&ty);
    assert_eq!(Arc::new(Term::decompress(compressed, proof, &ty)), term);
}

#[test]
fn nbe_test_normalize_identity() {
    let mut normalizer = Normalizer::new();
    let var0 = Term::var(0);
    let identity = Term::lambda(None, var0.clone());
    let normalized = normalizer.normalize(&identity);
    assert_eq!(normalized, identity);
}

#[test]
fn test_alpha_equivalence() {
    let mut normalizer = Normalizer::new();
    let id1 = Term::lambda(None, Term::var(0));
    let id2 = Term::lambda(None, Term::var(0));
    assert!(normalizer.alpha_equiv(&id1, &id2));
}

#[test]
fn test_nbe_beta_and_projection() {
    let mut normalizer = Normalizer::new();
    let app = Term::app(Term::lambda(None, Term::var(0)), Term::universe(3));
    assert_eq!(normalizer.normalize(&app), Term::universe(3));
    let proj = Term::snd(Term::pair(Term::universe(1), Term::universe(2)));
    assert_eq!(normalizer.normalize(&proj), Term::universe(2));
}

#[test]
fn types_test_universe_hierarchy() {
    let type0 = Term::universe(0);
    let type1 = Term::universe(1);
    assert!(Type1::contains(&type0));
    assert!(!Type0::contains(&type1));
    assert!(Type2::contains(&type1));
}

#[test]
fn test_env_operations() {
    let mut env = TypeEnv::new();
    let ty = Term::universe(0);
    let level = env.extend(ty.clone());
    assert_eq!(level, 0);
    assert_eq!(env.get(0), Some(&ty));
    assert_eq!(env.size(), 1);
}

#[test]
fn test_shift_and_subst() {
    let t = Term::lambda(None, Term::app(Term::var(0), Term::var(2)));
    assert_eq!(t.shift(1, 1), Term::lambda(None, Term::app(Term::var(0), Term::var(3))));
    let body = Term::app(Term::var(0), Term::var(1));
    assert_eq!(body.subst(0, &Term::universe(0)), Term::app(Term::universe(0), Term::var(1)));
}

#[test]
fn test_identity_function_typing() {
    let mut checker = TypeChecker::new(10);
    let env = TypeEnv::new();
    let type0 = Term::universe(0);
    let id_type = Term::pi(None, type0.clone(), type0.clone());
    let id_body = Term::lambda(None, Term::var(0));
    let result = checker.check(&env, &id_body, &id_type);
    assert!(result.is_ok());
}

#[test]
fn test_pair_projection_typing() {
    assert!(true);
}

#[test]
fn test_equality_type() {
    let mut checker = TypeChecker::new(10);
    let env = TypeEnv::new();
    let type0 = Term::universe(0);
    let refl_term = Term::refl(type0.clone());
    let eq_type = Term::id(Term::universe(1), type0.clone(), type0);
    let result = checker.check(&env, &refl_term, &eq_type);
    assert!(result.is_ok());
}

#[test]
fn tests_test_universe_hierarchy() {
    let mut checker = TypeChecker::new(3);
    let env = TypeEnv::new();
    let type0 = Term::universe(0);
    let result = checker.infer(&env, &type0);
    assert_eq!(result.unwrap(), Term::universe(1));
    let type1 = Term::universe(1);
    let result = checker.infer(&env, &type1);
    assert_eq!(result.unwrap(), Term::universe(2));
    let type3 = Term::universe(3);
    let result = checker.infer(&env, &type3);
    assert!(result.is_err());
}

#[test]
fn test_normalization_beta_reduction() {
    let mut normalizer = Normalizer::new();
    let identity = Term::lambda(None, Term::var(0));
    let type0 = Term::universe(0);
    let application = Term::app(identity, type0.clone());
    let normalized = normalizer.normalize(&application);
    assert_eq!(normalized, type0);
}

#[test]
fn test_normal_nested_lambda_normalizes_to_itself() {
    let mut normalizer = Normalizer::new();
    // Var holds a level: this is λx.λy.x, already normal.
    let t = Term::lambda(None, Term::lambda(None, Term::var(0)));
    assert_eq!(normalizer.normalize(&t), t);
    let u = Term::lambda(None, Term::lambda(None, Term::var(1)));
    assert_eq!(normalizer.normalize(&u), u);
}

#[test]
fn test_check_answers_with_the_expected_type() {
    let mut checker = TypeChecker::new(10);
    let env = TypeEnv::new();
    let t = Term::universe(0);
    let expected = Term::universe(1);
    assert_eq!(checker.check(&env, &t, &expected).unwrap(), expected);
    assert!(checker.check(&env, &t, &Term::universe(2)).is_err());
}

#[test]
fn test_normalize_twice_is_normalize_once() {
    let mut normalizer = Normalizer::new();
    let id = Term::lambda(None, Term::var(0));
    let terms = vec![
        Term::app(id.clone(), Term::universe(0)),
        Term::lambda(None, Term::app(id.clone(), Term::var(0))),
        Term::lambda(Some("x".to_string()), Term::lambda(None, Term::app(Term::var(0), Term::var(1)))),
        Term::pi(None, Term::universe(0), Term::app(id.clone(), Term::var(0))),
    ];
    for t in terms {
        let n = normalizer.normalize(&t);
        assert_eq!(normalizer.normalize(&n), n);
    }
    assert_eq!(
        normalizer.normalize(&Term::lambda(None, Term::app(id.clone(), Term::var(0)))),
        Term::lambda(None, Term::var(0))
    );
}
