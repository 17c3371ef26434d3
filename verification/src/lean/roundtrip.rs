//! Round trips through Lean: a term translated to Lean by a translator
//! whose context holds no binder comes back as itself.

use vstd::prelude::*;
use std::sync::Arc;
use crate::kernel::{Term, Level};
use crate::kernel::show::{decimal, digit_char};
use crate::kernel::name::spec_name_lookup;
use super::types::{SemLean, SemLevel, SemName, spec_from_nat, spec_to_nat, name_text, lemma_to_nat_from_nat};
use super::context::{CtxState, NameV, numbered, initial_levels, spec_enter, spec_exit};
use super::error::SemLeanErr;
use super::translation::{spec_to_lean, spec_from_lean, spec_parse_usize, digits_value, is_digit, digits_part,
    anon_name, binder_count, TrState, spec_tr_to_lean, spec_tr_from_lean, to_lean_fits};

verus! {

proof fn lemma_digit_char(d: nat)
    requires
        d < 10,
    ensures
        is_digit(digit_char(d)),
        digit_char(d) as nat - '0' as nat == d,
{
}

/// The decimal notation of `n` is a nonempty string of digits spelling `n`.
pub proof fn lemma_decimal_digits(n: nat)
    ensures
        decimal(n).len() > 0,
        forall|i: int| 0 <= i < decimal(n).len() ==> is_digit(#[trigger] decimal(n)[i]),
        digits_value(decimal(n)) == n,
    decreases n,
{
    if n < 10 {
        lemma_digit_char(n);
        assert(decimal(n).drop_last() =~= Seq::<char>::empty());
        assert(decimal(n).last() == digit_char(n));
        assert(digits_value(decimal(n)) == digits_value(Seq::<char>::empty()) * 10 + (digit_char(n) as nat - '0' as nat) as nat);
    } else {
        lemma_decimal_digits(n / 10);
        lemma_digit_char(n % 10);
        let s = decimal(n);
        assert(s.drop_last() =~= decimal(n / 10));
        assert(s.last() == digit_char(n % 10));
        assert(digits_value(s) == (n / 10) * 10 + n % 10);
        assert((n / 10) * 10 + n % 10 == n) by (nonlinear_arith);
        assert forall|i: int| 0 <= i < s.len() implies is_digit(#[trigger] s[i]) by {
            if i < s.len() - 1 {
                assert(s[i] == decimal(n / 10)[i]);
            }
        }
    }
}

/// Different numbers have different decimal notations.
pub proof fn lemma_decimal_injective(a: nat, b: nat)
    requires
        decimal(a) == decimal(b),
    ensures
        a == b,
{
    lemma_decimal_digits(a);
    lemma_decimal_digits(b);
}

/// Reading the decimal notation of a `usize` gives it back.
pub proof fn lemma_parse_decimal(n: usize)
    ensures
        spec_parse_usize(decimal(n as nat)) == Some(n),
{
    lemma_decimal_digits(n as nat);
    let d = decimal(n as nat);
    assert(is_digit(d[0]));
    assert(digits_part(d) == d);
}

/// The Lean name a context gives its `c`-th generated binder.
pub open spec fn anon_lean(c: nat) -> SemName {
    numbered("_anon"@, c)
}

/// The text of that name.
pub open spec fn anon_text(c: nat) -> Seq<char> {
    name_text(anon_lean(c))
}

/// Different counters give different names.
pub proof fn lemma_anon_text_injective(a: nat, b: nat)
    requires
        anon_text(a) == anon_text(b),
    ensures
        a == b,
{
    let p = "_anon"@ + "_"@;
    assert(anon_text(a) == p + decimal(a));
    assert(anon_text(b) == p + decimal(b));
    assert((p + decimal(a)).skip(p.len() as int) =~= decimal(a));
    assert((p + decimal(b)).skip(p.len() as int) =~= decimal(b));
    lemma_decimal_injective(a, b);
}

/// The name looked up in a list without repetitions is found at its
/// distance from the end.
pub proof fn lemma_lookup_distinct(names: Seq<NameV>, j: int)
    requires
        0 <= j < names.len(),
        names.len() <= usize::MAX,
        forall|a: int, b: int| 0 <= a < b < names.len() ==> names[a] != names[b],
    ensures
        spec_name_lookup(names, names[j]) == Some((names.len() - 1 - j) as usize),
    decreases names.len(),
{
    if j < names.len() - 1 {
        let p = names.drop_last();
        assert(names.last() != names[j]);
        assert(p[j] == names[j]);
        lemma_lookup_distinct(p, j);
    }
}

/// The states of the two directions of a round trip under `ids.len()`
/// binders: going out, the `j`-th binder is the generated name numbered
/// `ids[j]` and is given the Lean name `_anon_<cs[j]>`; coming back, it is
/// the user name with that text, mapped to the same Lean name. No other
/// name is mapped, and numbers grow inward.
#[verifier::opaque]
pub open spec fn rt_inv(s: CtxState, b: CtxState, ids: Seq<u64>, cs: Seq<nat>, anon: u64) -> bool {
    let d = ids.len();
    &&& cs.len() == d
    &&& s.scope.len() == d
    &&& b.scope.len() == d
    &&& s.depth == d
    &&& b.depth == d
    &&& s.levels == initial_levels()
    &&& forall|j: int| 0 <= j < d ==> #[trigger] s.scope[j] == anon_name(ids[j])
    &&& forall|j: int| 0 <= j < d ==> #[trigger] b.scope[j] == (anon_text(cs[j]), None::<u64>)
    &&& forall|j: int| 0 <= j < d ==> s.names.contains_key(#[trigger] s.scope[j]) && s.names[s.scope[j]] == anon_lean(cs[j])
    &&& forall|j: int| 0 <= j < d ==> b.names.contains_key(#[trigger] b.scope[j]) && b.names[b.scope[j]] == anon_lean(cs[j])
    &&& forall|j: int| 0 <= j < d ==> s.reverse.contains_key(#[trigger] anon_lean(cs[j])) && s.reverse[anon_lean(cs[j])] == s.scope[j]
    &&& forall|j: int| 0 <= j < d ==> b.reverse.contains_key(#[trigger] anon_lean(cs[j])) && b.reverse[anon_lean(cs[j])] == b.scope[j]
    &&& forall|k: NameV| #[trigger] s.names.contains_key(k) ==> exists|j: int| 0 <= j < d && k == s.scope[j]
    &&& forall|k: NameV| #[trigger] b.names.contains_key(k) ==> exists|j: int| 0 <= j < d && k == b.scope[j]
    &&& forall|k: SemName| #[trigger] s.reverse.contains_key(k) ==> exists|j: int| 0 <= j < d && k == anon_lean(cs[j])
    &&& forall|k: SemName| #[trigger] b.reverse.contains_key(k) ==> exists|j: int| 0 <= j < d && k == anon_lean(cs[j])
    &&& forall|i: int, j: int| 0 <= i < j < d ==> ids[i] < ids[j] && cs[i] < cs[j]
    &&& forall|j: int| 0 <= j < d ==> ids[j] < anon && 1 <= cs[j] && cs[j] <= s.counter
}

/// The state `s` with another counter.
pub open spec fn with_counter(s: CtxState, c: usize) -> CtxState {
    CtxState { counter: c, ..s }
}

proof fn lemma_inv_counter(s: CtxState, b: CtxState, ids: Seq<u64>, cs: Seq<nat>, anon: u64, c: usize, a: u64)
    requires
        rt_inv(s, b, ids, cs, anon),
        s.counter <= c,
        anon <= a,
    ensures
        rt_inv(with_counter(s, c), b, ids, cs, a),
{
    reveal(rt_inv);
}

/// Entering a binder on both sides keeps the states related.
proof fn lemma_inv_enter(s: CtxState, b: CtxState, ids: Seq<u64>, cs: Seq<nat>, anon: u64)
    requires
        rt_inv(s, b, ids, cs, anon),
        s.counter < usize::MAX,
        anon < u64::MAX,
        s.depth < usize::MAX,
    ensures
        ({
            let (ln, s2) = spec_enter(s, anon_name(anon));
            let c = (s.counter + 1) as nat;
            &&& ln == anon_lean(c)
            &&& spec_enter(b, (name_text(ln), None::<u64>)) == (ln, CtxState {
                names: b.names.insert((anon_text(c), None::<u64>), ln),
                reverse: b.reverse.insert(ln, (anon_text(c), None::<u64>)),
                levels: b.levels,
                depth: (b.depth + 1) as usize,
                counter: b.counter,
                scope: b.scope.push((anon_text(c), None::<u64>)),
            })
            &&& rt_inv(s2, spec_enter(b, (name_text(ln), None::<u64>)).1, ids.push(anon), cs.push(c), (anon + 1) as u64)
        }),
{
    reveal(rt_inv);
    reveal_strlit("_");
    reveal_strlit("_anon");
    let c = (s.counter + 1) as nat;
    let ln = anon_lean(c);
    let x = anon_text(c);
    assert(x.len() > 1);
    assert(x != "_"@);
    assert(!b.reverse.contains_key(SemName::Str(x))) by {
        if b.reverse.contains_key(SemName::Str(x)) {
            let j = choose|j: int| 0 <= j < ids.len() && SemName::Str(x) == anon_lean(cs[j]);
            lemma_anon_text_injective(c, cs[j]);
        }
    }
    let (ln2, s2) = spec_enter(s, anon_name(anon));
    assert(ln2 == ln);
    let b2 = spec_enter(b, (x, None::<u64>)).1;
    let ids2 = ids.push(anon);
    let cs2 = cs.push(c);
    let d = ids2.len();
    assert forall|j: int| 0 <= j < d implies #[trigger] s2.scope[j] == anon_name(ids2[j]) by {}
    assert forall|j: int| 0 <= j < d implies #[trigger] b2.scope[j] == (anon_text(cs2[j]), None::<u64>) by {}
    assert forall|j: int| 0 <= j < d implies s2.names.contains_key(#[trigger] s2.scope[j]) && s2.names[s2.scope[j]] == anon_lean(cs2[j]) by {
        if j < d - 1 {
            assert(s.scope[j] != anon_name(anon));
        }
    }
    assert forall|j: int| 0 <= j < d implies b2.names.contains_key(#[trigger] b2.scope[j]) && b2.names[b2.scope[j]] == anon_lean(cs2[j]) by {
        if j < d - 1 {
            if b.scope[j] == (x, None::<u64>) {
                lemma_anon_text_injective(cs[j], c);
            }
        }
    }
    assert forall|j: int| 0 <= j < d implies s2.reverse.contains_key(#[trigger] anon_lean(cs2[j])) && s2.reverse[anon_lean(cs2[j])] == s2.scope[j] by {
        if j < d - 1 {
            if anon_lean(cs[j]) == ln {
                lemma_anon_text_injective(cs[j], c);
            }
        }
    }
    assert forall|j: int| 0 <= j < d implies b2.reverse.contains_key(#[trigger] anon_lean(cs2[j])) && b2.reverse[anon_lean(cs2[j])] == b2.scope[j] by {
        if j < d - 1 {
            if anon_lean(cs[j]) == ln {
                lemma_anon_text_injective(cs[j], c);
            }
        }
    }
    assert forall|k: NameV| #[trigger] s2.names.contains_key(k) implies exists|j: int| 0 <= j < d && k == s2.scope[j] by {
        if k == anon_name(anon) {
            assert(k == s2.scope[d - 1]);
        } else {
            let j = choose|j: int| 0 <= j < ids.len() && k == s.scope[j];
            assert(k == s2.scope[j]);
        }
    }
    assert forall|k: NameV| #[trigger] b2.names.contains_key(k) implies exists|j: int| 0 <= j < d && k == b2.scope[j] by {
        if k == (x, None::<u64>) {
            assert(k == b2.scope[d - 1]);
        } else {
            let j = choose|j: int| 0 <= j < ids.len() && k == b.scope[j];
            assert(k == b2.scope[j]);
        }
    }
    assert forall|k: SemName| #[trigger] s2.reverse.contains_key(k) implies exists|j: int| 0 <= j < d && k == anon_lean(cs2[j]) by {
        if k == ln {
            assert(k == anon_lean(cs2[d - 1]));
        } else {
            let j = choose|j: int| 0 <= j < ids.len() && k == anon_lean(cs[j]);
            assert(k == anon_lean(cs2[j]));
        }
    }
    assert forall|k: SemName| #[trigger] b2.reverse.contains_key(k) implies exists|j: int| 0 <= j < d && k == anon_lean(cs2[j]) by {
        if k == ln {
            assert(k == anon_lean(cs2[d - 1]));
        } else {
            let j = choose|j: int| 0 <= j < ids.len() && k == anon_lean(cs[j]);
            assert(k == anon_lean(cs2[j]));
        }
    }
}

/// Exiting the binder entered on both sides restores both states (the
/// outgoing counter aside).
proof fn lemma_exit_restores(s: CtxState, b: CtxState, ids: Seq<u64>, cs: Seq<nat>, anon: u64, c3: usize)
    requires
        rt_inv(s, b, ids, cs, anon),
        s.counter < usize::MAX,
        anon < u64::MAX,
        s.depth < usize::MAX,
    ensures
        ({
            let (ln, s2) = spec_enter(s, anon_name(anon));
            let b2 = spec_enter(b, (name_text(ln), None::<u64>)).1;
            &&& spec_exit(with_counter(s2, c3)) == with_counter(s, c3)
            &&& spec_exit(b2) == b
        }),
{
    reveal(rt_inv);
    reveal_strlit("_");
    reveal_strlit("_anon");
    lemma_inv_enter(s, b, ids, cs, anon);
    let c = (s.counter + 1) as nat;
    let (ln, s2) = spec_enter(s, anon_name(anon));
    let x = anon_text(c);
    let b2 = spec_enter(b, (x, None::<u64>)).1;
    let last = anon_name(anon);
    assert(!s.names.contains_key(last)) by {
        if s.names.contains_key(last) {
            let j = choose|j: int| 0 <= j < ids.len() && last == s.scope[j];
            assert(s.scope[j] == anon_name(ids[j]));
        }
    }
    assert(!s.reverse.contains_key(ln)) by {
        if s.reverse.contains_key(ln) {
            let j = choose|j: int| 0 <= j < ids.len() && ln == anon_lean(cs[j]);
            lemma_anon_text_injective(c, cs[j]);
        }
    }
    assert(!b.names.contains_key((x, None::<u64>))) by {
        if b.names.contains_key((x, None::<u64>)) {
            let j = choose|j: int| 0 <= j < ids.len() && (x, None::<u64>) == b.scope[j];
            lemma_anon_text_injective(c, cs[j]);
        }
    }
    assert(!b.reverse.contains_key(ln)) by {
        if b.reverse.contains_key(ln) {
            let j = choose|j: int| 0 <= j < ids.len() && ln == anon_lean(cs[j]);
            lemma_anon_text_injective(c, cs[j]);
        }
    }
    let e = spec_exit(with_counter(s2, c3));
    assert(e.names =~= s.names);
    assert(e.reverse =~= s.reverse);
    assert(e.scope =~= s.scope);
    let eb = spec_exit(b2);
    assert(eb.names =~= b.names);
    assert(eb.reverse =~= b.reverse);
    assert(eb.scope =~= b.scope);
}

proof fn lemma_roundtrip_var(s: CtxState, b: CtxState, ids: Seq<u64>, cs: Seq<nat>, anon: u64, i: usize)
    requires
        rt_inv(s, b, ids, cs, anon),
        s.depth <= usize::MAX,
        spec_to_lean(s, anon, Term::Var(i)).0 is Ok,
    ensures
        ({
            let (r, s2, a2) = spec_to_lean(s, anon, Term::Var(i));
            &&& spec_from_lean(b, r->Ok_0) == (Ok::<Term, SemLeanErr>(Term::Var(i)), b)
            &&& s2 == with_counter(s, s2.counter)
            &&& s2.counter == s.counter
            &&& a2 == anon
        }),
{
    reveal(rt_inv);
    let d = ids.len();
    let j = d - 1 - i;
    assert(s.scope[j] == anon_name(ids[j]));
    let l = anon_lean(cs[j]);
    assert(b.reverse.contains_key(l));
    assert forall|x: int, y: int| 0 <= x < y < b.scope.len() implies b.scope[x] != b.scope[y] by {
        if b.scope[x] == b.scope[y] {
            assert(b.scope[x] == (anon_text(cs[x]), None::<u64>));
            assert(b.scope[y] == (anon_text(cs[y]), None::<u64>));
            lemma_anon_text_injective(cs[x], cs[y]);
        }
    }
    lemma_lookup_distinct(b.scope, j);
    assert(with_counter(s, s.counter) == s);
}

/// The term an `Arc` holds.
pub open spec fn inner(a: Arc<Term>) -> Term {
    *a
}

/// A term that goes out to Lean comes back as itself, from related states;
/// going out only moves the counters, and coming back changes nothing.
#[verifier::spinoff_prover]
#[verifier::rlimit(40)]
pub proof fn lemma_roundtrip_rec(s: CtxState, b: CtxState, ids: Seq<u64>, cs: Seq<nat>, anon: u64, t: Term)
    requires
        rt_inv(s, b, ids, cs, anon),
        s.depth + t.spec_binder_depth() <= usize::MAX,
        s.counter + binder_count(t) <= usize::MAX,
        anon + binder_count(t) <= u64::MAX,
        spec_to_lean(s, anon, t).0 is Ok,
    ensures
        ({
            let (r, s2, a2) = spec_to_lean(s, anon, t);
            &&& spec_from_lean(b, r->Ok_0) == (Ok::<Term, SemLeanErr>(t), b)
            &&& s2 == with_counter(s, s2.counter)
            &&& s.counter <= s2.counter <= s.counter + binder_count(t)
            &&& anon <= a2 <= anon + binder_count(t)
        }),
    decreases t,
{
    reveal_strlit("?m");
    match t {
        Term::Var(i) => {
            lemma_roundtrip_var(s, b, ids, cs, anon, i);
        },
        Term::Universe(l) => {
            reveal(rt_inv);
            lemma_to_nat_from_nat(l.0 as nat);
            assert(Level(l.0) == l);
            assert(with_counter(s, s.counter) == s);
        },
        Term::Meta(id) => {
            let text = "?m"@ + decimal(id as nat);
            assert(text.skip(2) =~= decimal(id as nat));
            lemma_parse_decimal(id);
            assert(with_counter(s, s.counter) == s);
        },
        Term::App(f, a) => {
            lemma_roundtrip_rec(s, b, ids, cs, anon, inner(f));
            let (rf, s1, a1) = spec_to_lean(s, anon, inner(f));
            lemma_inv_counter(s, b, ids, cs, anon, s1.counter, a1);
            assert(s1 == with_counter(s, s1.counter));
            lemma_roundtrip_rec(s1, b, ids, cs, a1, inner(a));
            let (ra, s2, a2) = spec_to_lean(s1, a1, inner(a));
            assert(with_counter(s1, s2.counter) == with_counter(s, s2.counter));
        },
        Term::Lambda(body) => {
            let (ln, s1) = spec_enter(s, anon_name(anon));
            let c = (s.counter + 1) as nat;
            lemma_inv_enter(s, b, ids, cs, anon);
            let b1 = spec_enter(b, (name_text(ln), None::<u64>)).1;
            lemma_roundtrip_rec(s1, b1, ids.push(anon), cs.push(c), (anon + 1) as u64, inner(body));
            let (rb, s2, a2) = spec_to_lean(s1, (anon + 1) as u64, inner(body));
            lemma_exit_restores(s, b, ids, cs, anon, s2.counter);
            assert(s2 == with_counter(s1, s2.counter));
        },
        Term::Pi(dom, cod) => {
            lemma_roundtrip_rec(s, b, ids, cs, anon, inner(dom));
            let (rd, s1, a1) = spec_to_lean(s, anon, inner(dom));
            lemma_inv_counter(s, b, ids, cs, anon, s1.counter, a1);
            let (ln, s2) = spec_enter(s1, anon_name(a1));
            let c = (s1.counter + 1) as nat;
            lemma_inv_enter(s1, b, ids, cs, a1);
            let b1 = spec_enter(b, (name_text(ln), None::<u64>)).1;
            lemma_roundtrip_rec(s2, b1, ids.push(a1), cs.push(c), (a1 + 1) as u64, inner(cod));
            let (rc, s3, a2) = spec_to_lean(s2, (a1 + 1) as u64, inner(cod));
            lemma_exit_restores(s1, b, ids, cs, a1, s3.counter);
            assert(s3 == with_counter(s2, s3.counter));
            assert(with_counter(s1, s3.counter) == with_counter(s, s3.counter));
        },
        Term::Let(val, body) => {
            lemma_roundtrip_rec(s, b, ids, cs, anon, inner(val));
            let (rv, s1, a1) = spec_to_lean(s, anon, inner(val));
            lemma_inv_counter(s, b, ids, cs, anon, s1.counter, a1);
            let (ln, s2) = spec_enter(s1, anon_name(a1));
            let c = (s1.counter + 1) as nat;
            lemma_inv_enter(s1, b, ids, cs, a1);
            let b1 = spec_enter(b, (name_text(ln), None::<u64>)).1;
            lemma_roundtrip_rec(s2, b1, ids.push(a1), cs.push(c), (a1 + 1) as u64, inner(body));
            let (rb, s3, a2) = spec_to_lean(s2, (a1 + 1) as u64, inner(body));
            lemma_exit_restores(s1, b, ids, cs, a1, s3.counter);
            assert(s3 == with_counter(s2, s3.counter));
            assert(with_counter(s1, s3.counter) == with_counter(s, s3.counter));
        },
    }
}

/// A context state with no binder and no name mapped, and the initial
/// levels.
pub open spec fn clean(c: CtxState) -> bool {
    &&& c.names == Map::<NameV, SemName>::empty()
    &&& c.reverse == Map::<SemName, NameV>::empty()
    &&& c.scope == Seq::<NameV>::empty()
    &&& c.depth == 0
    &&& c.levels == initial_levels()
}

proof fn lemma_clean_inv(s: CtxState, b: CtxState, anon: u64)
    requires
        clean(s),
        clean(b),
    ensures
        rt_inv(s, b, Seq::empty(), Seq::empty(), anon),
{
    reveal(rt_inv);
}

/// Round trip: for a translator whose context holds no binder and whose
/// caches are empty, a term that translates to Lean translates back to
/// itself.
pub proof fn lemma_translation_roundtrip(st: TrState, t: Term)
    requires
        clean(st.ctx),
        st.to_cache == Map::<Term, SemLean>::empty(),
        st.from_cache == Map::<SemLean, Term>::empty(),
        to_lean_fits(st, t),
        spec_tr_to_lean(st, t).0 is Ok,
    ensures
        ({
            let (r, st2) = spec_tr_to_lean(st, t);
            spec_tr_from_lean(st2, r->Ok_0).0 == Ok::<Term, SemLeanErr>(t)
        }),
{
    let s = st.ctx;
    lemma_clean_inv(s, s, st.anon);
    lemma_roundtrip_rec(s, s, Seq::empty(), Seq::empty(), st.anon, t);
    let (r, s2, a2) = spec_to_lean(s, st.anon, t);
    assert(clean(s2));
    lemma_clean_inv(s, s2, st.anon);
    lemma_roundtrip_rec(s, s2, Seq::empty(), Seq::empty(), st.anon, t);
}

} // verus!
