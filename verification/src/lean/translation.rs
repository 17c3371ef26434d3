//! Translation between De Bruijn terms and named Lean terms.
//!
//! Going to Lean, each binder gets a generated name `_` (with a fresh
//! number) on the De Bruijn side and a Lean name chosen by the context;
//! variables become the Lean names of their binders. Coming back, Lean
//! names become De Bruijn indices, levels of the form `succ^n(0)` become
//! universes, and constants `?m<n>` become metavariables. The types that
//! Lean binders carry are placeholders (`Sort 0`) going out and ignored
//! coming back. A translator keeps a context and caches of finished
//! translations in both directions.

use vstd::prelude::*;
use vstd::string::StrSliceExecFns;
use std::sync::Arc;
use crate::assoc::{AssocMap, Keyed};
use crate::kernel::{Term, Level};
use crate::kernel::name::Name;
use crate::kernel::show::{decimal, decimal_string};
use super::types::{LeanTerm, LeanLevel, LeanName, SemLean, SemLevel, SemName, spec_to_nat, name_text};
use super::context::{TranslationContext, CtxState, NameV, lres, spec_enter, spec_exit, spec_debruijn,
    spec_lean_index, spec_level_lookup};
use super::error::{LeanError, LeanResult, SemLeanErr, error_text};

verus! {

// ---------------------------------------------------------------------
// Decimal numbers
// ---------------------------------------------------------------------

/// Whether a character is an ASCII digit.
pub open spec fn is_digit(c: char) -> bool {
    '0' <= c && c <= '9'
}

/// The number a string of digits spells.
pub open spec fn digits_value(s: Seq<char>) -> nat
    decreases s.len(),
{
    if s.len() == 0 {
        0
    } else {
        digits_value(s.drop_last()) * 10 + (s.last() as nat - '0' as nat) as nat
    }
}

/// A string without its leading `+`, if any.
pub open spec fn digits_part(s: Seq<char>) -> Seq<char> {
    if s.len() > 0 && s[0] == '+' { s.skip(1) } else { s }
}

/// What `usize::from_str` gives: an optional `+`, then one or more digits
/// whose number fits in a `usize`.
pub open spec fn spec_parse_usize(s: Seq<char>) -> Option<usize> {
    let d = digits_part(s);
    if d.len() > 0 && (forall|i: int| 0 <= i < d.len() ==> is_digit(#[trigger] d[i])) && digits_value(d) <= usize::MAX {
        Some(digits_value(d) as usize)
    } else {
        None
    }
}

proof fn lemma_digits_monotone(s: Seq<char>, k: int)
    requires
        0 <= k <= s.len(),
        forall|i: int| 0 <= i < s.len() ==> is_digit(#[trigger] s[i]),
    ensures
        digits_value(s.subrange(0, k)) <= digits_value(s),
    decreases s.len(),
{
    if k < s.len() {
        let p = s.drop_last();
        assert(p.subrange(0, k) =~= s.subrange(0, k));
        lemma_digits_monotone(p, k);
    } else {
        assert(s.subrange(0, k) =~= s);
    }
}

/// Parse the characters of `s` from `start` on as `usize::from_str` does.
fn parse_usize_from(s: &str, start: usize) -> (r: Option<usize>)
    requires
        start <= s@.len(),
    ensures
        r == spec_parse_usize(s@.skip(start as int)),
{
    let ghost rest = s@.skip(start as int);
    let n = s.unicode_len();
    let mut i = start;
    if i < n && s.get_char(i) == '+' {
        i = i + 1;
    }
    let digits_start = i;
    let ghost d = s@.skip(digits_start as int);
    assert(d =~= digits_part(rest));
    if i == n {
        return None;
    }
    let mut value: usize = 0;
    assert(s@.subrange(digits_start as int, digits_start as int) =~= Seq::<char>::empty());
    while i < n
        invariant
            digits_start <= i <= n,
            n == s@.len(),
            d == s@.skip(digits_start as int),
            d == digits_part(rest),
            rest == s@.skip(start as int),
            forall|k: int| digits_start <= k < i ==> is_digit(#[trigger] s@[k]),
            value == digits_value(s@.subrange(digits_start as int, i as int)),
        decreases n - i,
    {
        let c = s.get_char(i);
        if c < '0' || c > '9' {
            proof {
                assert(d[i - digits_start] == c);
                assert(!is_digit(d[i - digits_start]));
                assert(!(forall|k: int| 0 <= k < d.len() ==> is_digit(#[trigger] d[k])));
                assert(digits_part(rest) == d);
                assert(spec_parse_usize(rest) is None);
            }
            return None;
        }
        let digit = (c as u32 - '0' as u32) as usize;
        proof {
            assert(s@.subrange(digits_start as int, i + 1).drop_last() =~= s@.subrange(digits_start as int, i as int));
        }
        let next = match value.checked_mul(10) {
            Some(v) => v.checked_add(digit),
            None => None,
        };
        match next {
            Some(w) => {
                proof {
                    let sub = s@.subrange(digits_start as int, i + 1);
                    assert(sub.last() == c);
                    assert(digits_value(sub) == value * 10 + digit);
                }
                value = w;
            },
            None => {
                proof {
                    let sub = s@.subrange(digits_start as int, i + 1);
                    assert(sub.last() == c);
                    assert(digit == (c as nat - '0' as nat));
                    assert(digits_value(sub) == value * 10 + digit);
                    assert(digits_value(sub) > usize::MAX);
                    if forall|k: int| 0 <= k < d.len() ==> is_digit(#[trigger] d[k]) {
                        assert(d.subrange(0, i + 1 - digits_start) =~= sub);
                        lemma_digits_monotone(d, i + 1 - digits_start);
                    }
                }
                return None;
            },
        }
        i = i + 1;
    }
    assert(s@.subrange(digits_start as int, n as int) =~= d);
    Some(value)
}

// ---------------------------------------------------------------------
// The translations as functions of the context state
// ---------------------------------------------------------------------

/// The generated De Bruijn-side name `_` with number `id`.
pub open spec fn anon_name(id: u64) -> NameV {
    ("_"@, Some(id))
}

/// The number of binders of a term.
pub open spec fn binder_count(t: Term) -> nat
    decreases t,
{
    match t {
        Term::Var(_) | Term::Universe(_) | Term::Meta(_) => 0,
        Term::Pi(d, c) => 1 + binder_count(*d) + binder_count(*c),
        Term::Lambda(b) => 1 + binder_count(*b),
        Term::App(f, a) => binder_count(*f) + binder_count(*a),
        Term::Let(v, b) => 1 + binder_count(*v) + binder_count(*b),
    }
}

/// The placeholder type given to Lean binders.
pub open spec fn placeholder() -> SemLean {
    SemLean::Sort(SemLevel::Zero)
}

/// Translation of a De Bruijn term to Lean from context state `st`, with
/// generated binder names numbered from `anon`: the result, the context
/// state after, and the next number.
pub open spec fn spec_to_lean(st: CtxState, anon: u64, t: Term) -> (Result<SemLean, SemLeanErr>, CtxState, u64)
    decreases t,
{
    match t {
        Term::Var(i) => (match spec_debruijn(st, i) {
            Ok(n) => Ok(SemLean::Var(n)),
            Err(e) => Err(SemLeanErr::Translation("Variable translation failed: "@ + error_text(e))),
        }, st, anon),
        Term::Universe(l) => (match spec_level_lookup(st, l.0) {
            Ok(lv) => Ok(SemLean::Sort(lv)),
            Err(e) => Err(SemLeanErr::Translation("Universe level translation failed: "@ + error_text(e))),
        }, st, anon),
        Term::Pi(d, c) => {
            let (rd, s1, a1) = spec_to_lean(st, anon, *d);
            match rd {
                Err(e) => (Err(e), s1, a1),
                Ok(ld) => {
                    let (ln, s2) = spec_enter(s1, anon_name(a1));
                    let (rc, s3, a2) = spec_to_lean(s2, (a1 + 1) as u64, *c);
                    (match rc {
                        Ok(lc) => Ok(SemLean::Pi(ln, Box::new(ld), Box::new(lc))),
                        Err(e) => Err(e),
                    }, spec_exit(s3), a2)
                },
            }
        },
        Term::Lambda(b) => {
            let (ln, s1) = spec_enter(st, anon_name(anon));
            let (rb, s2, a1) = spec_to_lean(s1, (anon + 1) as u64, *b);
            (match rb {
                Ok(lb) => Ok(SemLean::Lambda(ln, Box::new(placeholder()), Box::new(lb))),
                Err(e) => Err(e),
            }, spec_exit(s2), a1)
        },
        Term::App(f, a) => {
            let (rf, s1, a1) = spec_to_lean(st, anon, *f);
            match rf {
                Err(e) => (Err(e), s1, a1),
                Ok(lf) => {
                    let (ra, s2, a2) = spec_to_lean(s1, a1, *a);
                    (match ra {
                        Ok(la) => Ok(SemLean::App(Box::new(lf), Box::new(la))),
                        Err(e) => Err(e),
                    }, s2, a2)
                },
            }
        },
        Term::Let(v, b) => {
            let (rv, s1, a1) = spec_to_lean(st, anon, *v);
            match rv {
                Err(e) => (Err(e), s1, a1),
                Ok(lv) => {
                    let (ln, s2) = spec_enter(s1, anon_name(a1));
                    let (rb, s3, a2) = spec_to_lean(s2, (a1 + 1) as u64, *b);
                    (match rb {
                        Ok(lb) => Ok(SemLean::Let(ln, Box::new(placeholder()), Box::new(lv), Box::new(lb))),
                        Err(e) => Err(e),
                    }, spec_exit(s3), a2)
                },
            }
        },
        Term::Meta(id) => (Ok(SemLean::Const(SemName::Str("?m"@ + decimal(id as nat)))), st, anon),
    }
}

/// The nesting depth of the binders visited when reading a Lean term back.
pub open spec fn lean_binder_depth(t: SemLean) -> nat
    decreases t,
{
    match t {
        SemLean::Var(_) | SemLean::Sort(_) | SemLean::Const(_) => 0,
        SemLean::App(f, a) => vstd::math::max(lean_binder_depth(*f) as int, lean_binder_depth(*a) as int) as nat,
        SemLean::Lambda(_, _, b) => 1 + lean_binder_depth(*b),
        SemLean::Pi(_, d, c) => vstd::math::max(lean_binder_depth(*d) as int, (1 + lean_binder_depth(*c)) as int) as nat,
        SemLean::Let(_, _, v, b) => vstd::math::max(lean_binder_depth(*v) as int, (1 + lean_binder_depth(*b)) as int) as nat,
    }
}

/// The number of binders visited when reading a Lean term back.
pub open spec fn lean_binder_count(t: SemLean) -> nat
    decreases t,
{
    match t {
        SemLean::Var(_) | SemLean::Sort(_) | SemLean::Const(_) => 0,
        SemLean::App(f, a) => lean_binder_count(*f) + lean_binder_count(*a),
        SemLean::Lambda(_, _, b) => 1 + lean_binder_count(*b),
        SemLean::Pi(_, d, c) => 1 + lean_binder_count(*d) + lean_binder_count(*c),
        SemLean::Let(_, _, v, b) => 1 + lean_binder_count(*v) + lean_binder_count(*b),
    }
}

/// Whether every level visited when reading a Lean term back fits in 32
/// bits where it reads as a number.
pub open spec fn levels_fit(t: SemLean) -> bool
    decreases t,
{
    match t {
        SemLean::Var(_) | SemLean::Const(_) => true,
        SemLean::Sort(l) => spec_to_nat(l) matches Some(n) ==> n <= u32::MAX,
        SemLean::App(f, a) => levels_fit(*f) && levels_fit(*a),
        SemLean::Lambda(_, _, b) => levels_fit(*b),
        SemLean::Pi(_, d, c) => levels_fit(*d) && levels_fit(*c),
        SemLean::Let(_, _, v, b) => levels_fit(*v) && levels_fit(*b),
    }
}

/// Translation of a constant: `?m<n>` is metavariable `n`; others are
/// unsupported.
pub open spec fn spec_const_from_lean(n: SemName) -> Result<Term, SemLeanErr> {
    let text = name_text(n);
    if text.len() >= 2 && text[0] == '?' && text[1] == 'm' {
        match spec_parse_usize(text.skip(2)) {
            Some(id) => Ok(Term::Meta(id)),
            None => Err(SemLeanErr::Translation("Invalid metavariable: "@ + text)),
        }
    } else {
        Err(SemLeanErr::UnsupportedTerm("Global constant: "@ + text))
    }
}

/// Translation of a Lean term to a De Bruijn term from context state `st`:
/// the result and the context state after.
pub open spec fn spec_from_lean(st: CtxState, t: SemLean) -> (Result<Term, SemLeanErr>, CtxState)
    decreases t,
{
    match t {
        SemLean::Var(n) => (match spec_lean_index(st, n) {
            Ok(i) => Ok(Term::Var(i)),
            Err(e) => Err(SemLeanErr::Translation("Variable translation failed: "@ + error_text(e))),
        }, st),
        SemLean::Sort(l) => (match spec_to_nat(l) {
            Some(k) => Ok(Term::Universe(Level(k as u32))),
            None => Err(SemLeanErr::Translation("Cannot convert parametric level to concrete level"@)),
        }, st),
        SemLean::Const(n) => (spec_const_from_lean(n), st),
        SemLean::App(f, a) => {
            let (rf, s1) = spec_from_lean(st, *f);
            match rf {
                Err(e) => (Err(e), s1),
                Ok(tf) => {
                    let (ra, s2) = spec_from_lean(s1, *a);
                    (match ra {
                        Ok(ta) => Ok(Term::App(Arc::new(tf), Arc::new(ta))),
                        Err(e) => Err(e),
                    }, s2)
                },
            }
        },
        SemLean::Lambda(n, _, b) => {
            let (_, s1) = spec_enter(st, (name_text(n), None::<u64>));
            let (rb, s2) = spec_from_lean(s1, *b);
            (match rb {
                Ok(tb) => Ok(Term::Lambda(Arc::new(tb))),
                Err(e) => Err(e),
            }, spec_exit(s2))
        },
        SemLean::Pi(n, d, c) => {
            let (rd, s1) = spec_from_lean(st, *d);
            match rd {
                Err(e) => (Err(e), s1),
                Ok(td) => {
                    let (_, s2) = spec_enter(s1, (name_text(n), None::<u64>));
                    let (rc, s3) = spec_from_lean(s2, *c);
                    (match rc {
                        Ok(tc) => Ok(Term::Pi(Arc::new(td), Arc::new(tc))),
                        Err(e) => Err(e),
                    }, spec_exit(s3))
                },
            }
        },
        SemLean::Let(n, _, v, b) => {
            let (rv, s1) = spec_from_lean(st, *v);
            match rv {
                Err(e) => (Err(e), s1),
                Ok(tv) => {
                    let (_, s2) = spec_enter(s1, (name_text(n), None::<u64>));
                    let (rb, s3) = spec_from_lean(s2, *b);
                    (match rb {
                        Ok(tb) => Ok(Term::Let(Arc::new(tv), Arc::new(tb))),
                        Err(e) => Err(e),
                    }, spec_exit(s3))
                },
            }
        },
    }
}

// ---------------------------------------------------------------------
// The translations
// ---------------------------------------------------------------------

fn prefixed(prefix: &str, text: &String) -> (r: String)
    ensures
        r@ == prefix@ + text@,
{
    let mut s = String::from_str(prefix);
    s.append(text.as_str());
    s
}

fn to_lean_rec(term: &Term, ctx: &mut TranslationContext, anon: &mut u64) -> (r: LeanResult<LeanTerm>)
    requires
        old(ctx).spec_depth() + term.spec_binder_depth() <= usize::MAX,
        old(ctx).spec_counter() + binder_count(*term) <= usize::MAX,
        *old(anon) + binder_count(*term) <= u64::MAX,
    ensures
        (lres(r), final(ctx).state(), *final(anon)) == spec_to_lean(old(ctx).state(), *old(anon), *term),
        final(ctx).spec_depth() == old(ctx).spec_depth(),
        final(ctx).spec_scope() == old(ctx).spec_scope(),
        final(ctx).spec_levels() == old(ctx).spec_levels(),
        old(ctx).spec_counter() <= final(ctx).spec_counter() <= old(ctx).spec_counter() + binder_count(*term),
        *old(anon) <= *final(anon) <= *old(anon) + binder_count(*term),
    decreases term,
{
    match term {
        Term::Var(index) => match ctx.debruijn_to_lean(*index) {
            Ok(lean_name) => Ok(LeanTerm::var(lean_name)),
            Err(e) => {
                proof { reveal_strlit("Variable translation failed: "); }
                Err(LeanError::translation(prefixed("Variable translation failed: ", &e.to_display_string())))
            },
        },
        Term::Universe(level) => match ctx.get_universe_level(level.value()) {
            Ok(lean_level) => Ok(LeanTerm::sort(lean_level)),
            Err(e) => {
                proof { reveal_strlit("Universe level translation failed: "); }
                Err(LeanError::translation(prefixed("Universe level translation failed: ", &e.to_display_string())))
            },
        },
        Term::Pi(domain, codomain) => {
            let lean_domain = match to_lean_rec(domain, ctx, anon) {
                Ok(d) => d,
                Err(e) => return Err(e),
            };
            let binder = Name::generated("_", *anon);
            *anon = *anon + 1;
            let lean_name = ctx.enter_binder(binder);
            let lean_codomain = to_lean_rec(codomain, ctx, anon);
            ctx.exit_binder();
            match lean_codomain {
                Ok(c) => Ok(LeanTerm::pi(lean_name, lean_domain, c)),
                Err(e) => Err(e),
            }
        },
        Term::Lambda(body) => {
            let binder = Name::generated("_", *anon);
            *anon = *anon + 1;
            let lean_name = ctx.enter_binder(binder);
            let lean_body = to_lean_rec(body, ctx, anon);
            ctx.exit_binder();
            match lean_body {
                Ok(b) => Ok(LeanTerm::lambda(lean_name, LeanTerm::sort(LeanLevel::zero()), b)),
                Err(e) => Err(e),
            }
        },
        Term::App(function, argument) => {
            let lean_function = match to_lean_rec(function, ctx, anon) {
                Ok(f) => f,
                Err(e) => return Err(e),
            };
            match to_lean_rec(argument, ctx, anon) {
                Ok(a) => Ok(LeanTerm::app(lean_function, a)),
                Err(e) => Err(e),
            }
        },
        Term::Let(binding, body) => {
            let lean_binding = match to_lean_rec(binding, ctx, anon) {
                Ok(v) => v,
                Err(e) => return Err(e),
            };
            let binder = Name::generated("_", *anon);
            *anon = *anon + 1;
            let lean_name = ctx.enter_binder(binder);
            let lean_body = to_lean_rec(body, ctx, anon);
            ctx.exit_binder();
            match lean_body {
                Ok(b) => Ok(LeanTerm::let_in(lean_name, LeanTerm::sort(LeanLevel::zero()), lean_binding, b)),
                Err(e) => Err(e),
            }
        },
        Term::Meta(id) => {
            let mut text = String::from_str("?m");
            text.append(decimal_string(*id as u64).as_str());
            proof { reveal_strlit("?m"); }
            Ok(LeanTerm::const_(LeanName::new(text.as_str())))
        },
    }
}

fn const_from_lean(lean_name: &LeanName) -> (r: LeanResult<Term>)
    ensures
        lres(r) == spec_const_from_lean(lean_name@),
{
    let name_str = lean_name.as_str();
    let s = name_str.as_str();
    let n = s.unicode_len();
    if n >= 2 && s.get_char(0) == '?' && s.get_char(1) == 'm' {
        match parse_usize_from(s, 2) {
            Some(id) => Ok(Term::meta(id)),
            None => {
                proof { reveal_strlit("Invalid metavariable: "); }
                Err(LeanError::translation(prefixed("Invalid metavariable: ", &name_str)))
            },
        }
    } else {
        proof { reveal_strlit("Global constant: "); }
        Err(LeanError::unsupported_term(prefixed("Global constant: ", &name_str)))
    }
}

fn from_lean_rec(lean_term: &LeanTerm, ctx: &mut TranslationContext) -> (r: LeanResult<Term>)
    requires
        old(ctx).spec_depth() + lean_binder_depth(lean_term@) <= usize::MAX,
        old(ctx).spec_counter() + lean_binder_count(lean_term@) <= usize::MAX,
        levels_fit(lean_term@),
    ensures
        (lres(r), final(ctx).state()) == spec_from_lean(old(ctx).state(), lean_term@),
        final(ctx).spec_depth() == old(ctx).spec_depth(),
        final(ctx).spec_scope() == old(ctx).spec_scope(),
        final(ctx).spec_levels() == old(ctx).spec_levels(),
        old(ctx).spec_counter() <= final(ctx).spec_counter() <= old(ctx).spec_counter() + lean_binder_count(lean_term@),
    decreases lean_term,
{
    match lean_term {
        LeanTerm::Var(lean_name) => match ctx.lean_to_debruijn(lean_name) {
            Ok(index) => Ok(Term::var(index)),
            Err(e) => {
                proof { reveal_strlit("Variable translation failed: "); }
                Err(LeanError::translation(prefixed("Variable translation failed: ", &e.to_display_string())))
            },
        },
        LeanTerm::Sort(lean_level) => match lean_level.to_nat() {
            Some(level) => Ok(Term::universe(level)),
            None => {
                proof { reveal_strlit("Cannot convert parametric level to concrete level"); }
                Err(LeanError::translation(String::from_str("Cannot convert parametric level to concrete level")))
            },
        },
        LeanTerm::Const(lean_name) => const_from_lean(lean_name),
        LeanTerm::App(function, argument) => {
            let ttt_function = match from_lean_rec(function, ctx) {
                Ok(f) => f,
                Err(e) => return Err(e),
            };
            match from_lean_rec(argument, ctx) {
                Ok(a) => Ok(Term::app(ttt_function, a)),
                Err(e) => Err(e),
            }
        },
        LeanTerm::Lambda(lean_name, _ty, body) => {
            let text = lean_name.as_str();
            let _ = ctx.enter_binder(Name::user(text.as_str()));
            let ttt_body = from_lean_rec(body, ctx);
            ctx.exit_binder();
            match ttt_body {
                Ok(b) => Ok(Term::lambda(b)),
                Err(e) => Err(e),
            }
        },
        LeanTerm::Pi(lean_name, domain, codomain) => {
            let ttt_domain = match from_lean_rec(domain, ctx) {
                Ok(d) => d,
                Err(e) => return Err(e),
            };
            let text = lean_name.as_str();
            let _ = ctx.enter_binder(Name::user(text.as_str()));
            let ttt_codomain = from_lean_rec(codomain, ctx);
            ctx.exit_binder();
            match ttt_codomain {
                Ok(c) => Ok(Term::pi(ttt_domain, c)),
                Err(e) => Err(e),
            }
        },
        LeanTerm::Let(lean_name, _ty, value, body) => {
            let ttt_value = match from_lean_rec(value, ctx) {
                Ok(v) => v,
                Err(e) => return Err(e),
            };
            let text = lean_name.as_str();
            let _ = ctx.enter_binder(Name::user(text.as_str()));
            let ttt_body = from_lean_rec(body, ctx);
            ctx.exit_binder();
            match ttt_body {
                Ok(b) => Ok(Term::let_in(ttt_value, b)),
                Err(e) => Err(e),
            }
        },
    }
}

// ---------------------------------------------------------------------
// The translator
// ---------------------------------------------------------------------

/// The abstract state of a translator: its context, the next number for a
/// generated binder name, and its caches.
pub struct TrState {
    pub ctx: CtxState,
    pub anon: u64,
    pub to_cache: Map<Term, SemLean>,
    pub from_cache: Map<SemLean, Term>,
}

/// Whether translating `t` to Lean stays within machine words.
pub open spec fn to_lean_fits(st: TrState, t: Term) -> bool {
    &&& st.ctx.depth + t.spec_binder_depth() <= usize::MAX
    &&& st.ctx.counter + binder_count(t) <= usize::MAX
    &&& st.anon + binder_count(t) <= u64::MAX
}

/// Whether reading `l` back stays within machine words.
pub open spec fn from_lean_fits(st: TrState, l: SemLean) -> bool {
    &&& st.ctx.depth + lean_binder_depth(l) <= usize::MAX
    &&& st.ctx.counter + lean_binder_count(l) <= usize::MAX
    &&& levels_fit(l)
}

/// A translation to Lean through the cache: the cached result, or the
/// translation (cached when it succeeds).
pub open spec fn spec_tr_to_lean(st: TrState, t: Term) -> (Result<SemLean, SemLeanErr>, TrState) {
    if st.to_cache.contains_key(t) {
        (Ok(st.to_cache[t]), st)
    } else {
        let (r, c, a) = spec_to_lean(st.ctx, st.anon, t);
        (r, TrState {
            ctx: c,
            anon: a,
            to_cache: match r {
                Ok(l) => st.to_cache.insert(t, l),
                Err(_) => st.to_cache,
            },
            from_cache: st.from_cache,
        })
    }
}

/// Reading a Lean term back through the cache: the cached result, or the
/// translation (cached when it succeeds).
pub open spec fn spec_tr_from_lean(st: TrState, l: SemLean) -> (Result<Term, SemLeanErr>, TrState) {
    if st.from_cache.contains_key(l) {
        (Ok(st.from_cache[l]), st)
    } else {
        let (r, c) = spec_from_lean(st.ctx, l);
        (r, TrState {
            ctx: c,
            anon: st.anon,
            to_cache: st.to_cache,
            from_cache: match r {
                Ok(t) => st.from_cache.insert(l, t),
                Err(_) => st.from_cache,
            },
        })
    }
}

/// A translation to Lean that succeeded is answered from the cache the next
/// time, with nothing changed.
pub proof fn lemma_to_lean_cached(st: TrState, t: Term)
    requires
        spec_tr_to_lean(st, t).0 is Ok,
    ensures
        ({
            let (r, st2) = spec_tr_to_lean(st, t);
            spec_tr_to_lean(st2, t) == (r, st2)
        }),
{
}

/// Reading a Lean term back that succeeded is answered from the cache the
/// next time, with nothing changed.
pub proof fn lemma_from_lean_cached(st: TrState, l: SemLean)
    requires
        spec_tr_from_lean(st, l).0 is Ok,
    ensures
        ({
            let (r, st2) = spec_tr_from_lean(st, l);
            spec_tr_from_lean(st2, l) == (r, st2)
        }),
{
}

/// Whether a round trip of `t` stays within machine words.
pub open spec fn roundtrip_fits(st: TrState, t: Term) -> bool {
    &&& !st.to_cache.contains_key(t) ==> to_lean_fits(st, t)
    &&& ({
        let (r, st2) = spec_tr_to_lean(st, t);
        r matches Ok(l) ==> (!st2.from_cache.contains_key(l) ==> from_lean_fits(st2, l))
    })
}

/// Translation statistics
#[derive(Debug, Clone)]
pub struct TranslationStatistics {
    /// Number of cached translations to Lean
    pub to_lean_cache_size: usize,
    /// Number of cached Lean terms read back
    pub from_lean_cache_size: usize,
    /// Number of registered global constants
    pub global_constants: usize,
}

/// Bidirectional translator with a context, caches of finished
/// translations, and a registry of global constants.
#[derive(Debug)]
pub struct LeanTranslator {
    context: TranslationContext,
    to_lean_cache: AssocMap<Term, LeanTerm>,
    from_lean_cache: AssocMap<LeanTerm, Term>,
    constants: AssocMap<String, LeanName>,
    reverse_constants: AssocMap<LeanName, String>,
    next_anonymous: u64,
}

impl Default for LeanTranslator {
    fn default() -> (r: Self)
        ensures
            r.tr_state().ctx == TranslationContext::new_state(),
            r.tr_state().anon == 0,
            r.tr_state().to_cache == Map::<Term, SemLean>::empty(),
            r.tr_state().from_cache == Map::<SemLean, Term>::empty(),
            r.spec_constants() == Map::<Seq<char>, SemName>::empty(),
            r.spec_reverse_constants() == Map::<SemName, Seq<char>>::empty(),
    {
        Self::new()
    }
}

impl LeanTranslator {
    /// The abstract state.
    pub closed spec fn tr_state(&self) -> TrState {
        TrState {
            ctx: self.context.state(),
            anon: self.next_anonymous,
            to_cache: self.to_lean_cache.map(),
            from_cache: self.from_lean_cache.map(),
        }
    }

    /// The registered constants, by name.
    pub closed spec fn spec_constants(&self) -> Map<Seq<char>, SemName> {
        self.constants.map()
    }

    /// The registered constants, by Lean name.
    pub closed spec fn spec_reverse_constants(&self) -> Map<SemName, Seq<char>> {
        self.reverse_constants.map()
    }

    /// A translator with a fresh context, empty caches and no constants
    pub fn new() -> (r: Self)
        ensures
            r.tr_state().ctx == TranslationContext::new_state(),
            r.tr_state().anon == 0,
            r.tr_state().to_cache == Map::<Term, SemLean>::empty(),
            r.tr_state().from_cache == Map::<SemLean, Term>::empty(),
            r.spec_constants() == Map::<Seq<char>, SemName>::empty(),
            r.spec_reverse_constants() == Map::<SemName, Seq<char>>::empty(),
    {
        LeanTranslator {
            context: TranslationContext::new(),
            to_lean_cache: AssocMap::new(),
            from_lean_cache: AssocMap::new(),
            constants: AssocMap::new(),
            reverse_constants: AssocMap::new(),
            next_anonymous: 0,
        }
    }

    /// Clear both translation caches
    pub fn clear_caches(&mut self)
        ensures
            final(self).tr_state() == (TrState {
                to_cache: Map::<Term, SemLean>::empty(),
                from_cache: Map::<SemLean, Term>::empty(),
                ..old(self).tr_state()
            }),
            final(self).spec_constants() == old(self).spec_constants(),
            final(self).spec_reverse_constants() == old(self).spec_reverse_constants(),
    {
        self.to_lean_cache.clear();
        self.from_lean_cache.clear();
    }

    /// Register a global constant mapping both ways
    pub fn register_constant(&mut self, ttt_name: String, lean_name: LeanName)
        ensures
            final(self).tr_state() == old(self).tr_state(),
            final(self).spec_constants() == old(self).spec_constants().insert(ttt_name@, lean_name@),
            final(self).spec_reverse_constants() == old(self).spec_reverse_constants().insert(lean_name@, ttt_name@),
    {
        self.constants.insert(ttt_name.key_copy(), lean_name.copy());
        self.reverse_constants.insert(lean_name, ttt_name);
    }

    /// Translate a term to Lean with the translator's context, through the
    /// cache
    pub fn to_lean(&mut self, term: &Term) -> (r: LeanResult<LeanTerm>)
        requires
            !old(self).tr_state().to_cache.contains_key(*term) ==> to_lean_fits(old(self).tr_state(), *term),
        ensures
            (lres(r), final(self).tr_state()) == spec_tr_to_lean(old(self).tr_state(), *term),
            final(self).spec_constants() == old(self).spec_constants(),
            final(self).spec_reverse_constants() == old(self).spec_reverse_constants(),
    {
        match self.to_lean_cache.get(term) {
            Some(cached) => return Ok(cached.copy()),
            None => {},
        }
        let result = to_lean_rec(term, &mut self.context, &mut self.next_anonymous);
        match result {
            Ok(lean_term) => {
                self.to_lean_cache.insert(term.copy(), lean_term.copy());
                Ok(lean_term)
            },
            Err(e) => Err(e),
        }
    }

    /// Translate a Lean term with the translator's context, through the
    /// cache
    pub fn from_lean(&mut self, lean_term: &LeanTerm) -> (r: LeanResult<Term>)
        requires
            !old(self).tr_state().from_cache.contains_key(lean_term@) ==> from_lean_fits(old(self).tr_state(), lean_term@),
        ensures
            (lres(r), final(self).tr_state()) == spec_tr_from_lean(old(self).tr_state(), lean_term@),
            final(self).spec_constants() == old(self).spec_constants(),
            final(self).spec_reverse_constants() == old(self).spec_reverse_constants(),
    {
        match self.from_lean_cache.get(lean_term) {
            Some(cached) => return Ok(cached.copy()),
            None => {},
        }
        let result = from_lean_rec(lean_term, &mut self.context);
        match result {
            Ok(term) => {
                self.from_lean_cache.insert(lean_term.copy(), term.copy());
                Ok(term)
            },
            Err(e) => Err(e),
        }
    }

    /// Translate a term to Lean with a given context (no cache)
    pub fn to_lean_with_context(&mut self, term: &Term, ctx: &mut TranslationContext) -> (r: LeanResult<LeanTerm>)
        requires
            old(ctx).spec_depth() + term.spec_binder_depth() <= usize::MAX,
            old(ctx).spec_counter() + binder_count(*term) <= usize::MAX,
            old(self).tr_state().anon + binder_count(*term) <= u64::MAX,
        ensures
            (lres(r), final(ctx).state(), final(self).tr_state().anon)
                == spec_to_lean(old(ctx).state(), old(self).tr_state().anon, *term),
            final(self).tr_state() == (TrState { anon: final(self).tr_state().anon, ..old(self).tr_state() }),
            final(self).spec_constants() == old(self).spec_constants(),
            final(self).spec_reverse_constants() == old(self).spec_reverse_constants(),
    {
        to_lean_rec(term, ctx, &mut self.next_anonymous)
    }

    /// Translate a Lean term with a given context (no cache)
    pub fn from_lean_with_context(&self, lean_term: &LeanTerm, ctx: &mut TranslationContext) -> (r: LeanResult<Term>)
        requires
            old(ctx).spec_depth() + lean_binder_depth(lean_term@) <= usize::MAX,
            old(ctx).spec_counter() + lean_binder_count(lean_term@) <= usize::MAX,
            levels_fit(lean_term@),
        ensures
            (lres(r), final(ctx).state()) == spec_from_lean(old(ctx).state(), lean_term@),
    {
        from_lean_rec(lean_term, ctx)
    }

    /// Translate a term to Lean and back, and tell whether the result is
    /// the term itself
    pub fn verify_roundtrip(&mut self, term: &Term) -> (r: LeanResult<bool>)
        requires
            roundtrip_fits(old(self).tr_state(), *term),
        ensures
            ({
                let (r1, s1) = spec_tr_to_lean(old(self).tr_state(), *term);
                match r1 {
                    Err(e) => lres(r) == Err::<bool, SemLeanErr>(e) && final(self).tr_state() == s1,
                    Ok(l) => {
                        let (r2, s2) = spec_tr_from_lean(s1, l);
                        &&& final(self).tr_state() == s2
                        &&& match r2 {
                            Err(e) => lres(r) == Err::<bool, SemLeanErr>(e),
                            Ok(t2) => r == Ok::<bool, LeanError>(t2 == *term),
                        }
                    },
                }
            }),
            final(self).spec_constants() == old(self).spec_constants(),
            final(self).spec_reverse_constants() == old(self).spec_reverse_constants(),
    {
        let lean_term = match self.to_lean(term) {
            Ok(l) => l,
            Err(e) => return Err(e),
        };
        let reconstructed = match self.from_lean(&lean_term) {
            Ok(t) => t,
            Err(e) => return Err(e),
        };
        Ok(self.structurally_equivalent(term, &reconstructed))
    }

    /// Whether two terms have the same structure (for De Bruijn terms, the
    /// same term)
    pub fn structurally_equivalent(&self, term1: &Term, term2: &Term) -> (r: bool)
        ensures
            r == (*term1 == *term2),
        decreases term1,
    {
        match (term1, term2) {
            (Term::Var(i1), Term::Var(i2)) => *i1 == *i2,
            (Term::Universe(l1), Term::Universe(l2)) => l1.0 == l2.0,
            (Term::Pi(d1, c1), Term::Pi(d2, c2)) => {
                self.structurally_equivalent(d1, d2) && self.structurally_equivalent(c1, c2)
            },
            (Term::Lambda(b1), Term::Lambda(b2)) => self.structurally_equivalent(b1, b2),
            (Term::App(f1, a1), Term::App(f2, a2)) => {
                self.structurally_equivalent(f1, f2) && self.structurally_equivalent(a1, a2)
            },
            (Term::Let(v1, b1), Term::Let(v2, b2)) => {
                self.structurally_equivalent(v1, v2) && self.structurally_equivalent(b1, b2)
            },
            (Term::Meta(id1), Term::Meta(id2)) => *id1 == *id2,
            _ => false,
        }
    }

    /// The Lean name registered for a constant
    pub fn lookup_constant(&self, ttt_name: &String) -> (r: Option<&LeanName>)
        ensures
            r matches Some(l) ==> self.spec_constants().contains_key(ttt_name@) && l@ == self.spec_constants()[ttt_name@],
            r is None ==> !self.spec_constants().contains_key(ttt_name@),
    {
        self.constants.get(ttt_name)
    }

    /// The constant registered for a Lean name
    pub fn reverse_lookup_constant(&self, lean_name: &LeanName) -> (r: Option<&String>)
        ensures
            r matches Some(n) ==> self.spec_reverse_constants().contains_key(lean_name@) && n@ == self.spec_reverse_constants()[lean_name@],
            r is None ==> !self.spec_reverse_constants().contains_key(lean_name@),
    {
        self.reverse_constants.get(lean_name)
    }

    /// Get translation statistics
    pub fn statistics(&self) -> (r: TranslationStatistics)
        ensures
            r.to_lean_cache_size == self.tr_state().to_cache.len(),
            r.from_lean_cache_size == self.tr_state().from_cache.len(),
            r.global_constants == self.spec_constants().len(),
    {
        TranslationStatistics {
            to_lean_cache_size: self.to_lean_cache.len(),
            from_lean_cache_size: self.from_lean_cache.len(),
            global_constants: self.constants.len(),
        }
    }
}

} // verus!
