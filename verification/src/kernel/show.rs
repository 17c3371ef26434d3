//! Textual rendering of terms and values.

use vstd::prelude::*;
use crate::kernel::term::{Term, Level};
use crate::kernel::value::{Value, SemVal, seq_view, Environment, Neutral};

verus! {

broadcast use crate::kernel::value::lemma_seq_view;

/// The decimal digit for `d` (taken modulo ten).
pub open spec fn digit_char(d: nat) -> char {
    let d = d % 10;
    if d == 0 { '0' } else if d == 1 { '1' } else if d == 2 { '2' } else if d == 3 { '3' }
    else if d == 4 { '4' } else if d == 5 { '5' } else if d == 6 { '6' } else if d == 7 { '7' }
    else if d == 8 { '8' } else { '9' }
}

/// The decimal notation of a natural number, without leading zeros.
pub open spec fn decimal(n: nat) -> Seq<char>
    decreases n,
{
    if n < 10 {
        seq![digit_char(n)]
    } else {
        decimal(n / 10).push(digit_char(n % 10))
    }
}

pub(crate) fn digit_str(d: u64) -> (r: &'static str)
    requires
        d < 10,
    ensures
        r@ == seq![digit_char(d as nat)],
{
    if d == 0 {
        proof { reveal_strlit("0"); }
        "0"
    } else if d == 1 {
        proof { reveal_strlit("1"); }
        "1"
    } else if d == 2 {
        proof { reveal_strlit("2"); }
        "2"
    } else if d == 3 {
        proof { reveal_strlit("3"); }
        "3"
    } else if d == 4 {
        proof { reveal_strlit("4"); }
        "4"
    } else if d == 5 {
        proof { reveal_strlit("5"); }
        "5"
    } else if d == 6 {
        proof { reveal_strlit("6"); }
        "6"
    } else if d == 7 {
        proof { reveal_strlit("7"); }
        "7"
    } else if d == 8 {
        proof { reveal_strlit("8"); }
        "8"
    } else {
        proof { reveal_strlit("9"); }
        "9"
    }
}

/// The decimal notation of a number.
pub fn decimal_string(n: u64) -> (r: String)
    ensures
        r@ == decimal(n as nat),
    decreases n,
{
    if n < 10 {
        String::from_str(digit_str(n))
    } else {
        let mut s = decimal_string(n / 10);
        s.append(digit_str(n % 10));
        s
    }
}

/// The rendering of a universe level: its number.
pub open spec fn show_level(l: Level) -> Seq<char> {
    decimal(l.0 as nat)
}

/// The rendering of a term, with `names` naming the enclosing binders
/// (outermost first); binders introduced inside the term are named `x`,
/// and variables beyond the names are shown by index.
pub open spec fn show_term(t: Term, names: Seq<Seq<char>>) -> Seq<char>
    decreases t,
{
    match t {
        Term::Var(i) => if i < names.len() {
            names[names.len() - 1 - i]
        } else {
            "#"@ + decimal(i as nat)
        },
        Term::Universe(l) => "Type"@ + show_level(l),
        Term::Pi(d, c) => "(Π _ : "@ + show_term(*d, names) + ". "@ + show_term(*c, names.push("x"@)) + ")"@,
        Term::Lambda(b) => "(λ "@ + show_term(*b, names.push("x"@)) + ")"@,
        Term::App(f, a) => "("@ + show_term(*f, names) + " "@ + show_term(*a, names) + ")"@,
        Term::Let(v, b) => "(let "@ + show_term(*v, names) + " in "@ + show_term(*b, names.push("x"@)) + ")"@,
        Term::Meta(m) => "?"@ + decimal(m as nat),
    }
}

/// The rendering of a value: variables and neutral heads by level, binder
/// bodies elided.
pub open spec fn show_value(v: SemVal) -> Seq<char>
    decreases v,
{
    match v {
        SemVal::Var(l) => "#"@ + decimal(l as nat),
        SemVal::Universe(l) => "Type"@ + show_level(l),
        SemVal::Pi(d, _) => "(Π _ : "@ + show_value(*d) + ". ...)"@,
        SemVal::Lambda(_) => "(λ ...)"@,
        SemVal::Neutral(h, sp) => "#"@ + decimal(h as nat) + show_args(sp),
    }
}

/// The renderings of a spine's arguments, each preceded by a space.
pub open spec fn show_args(sp: Seq<SemVal>) -> Seq<char>
    decreases sp,
{
    if sp.len() == 0 {
        Seq::empty()
    } else {
        show_args(sp.drop_last()) + " "@ + show_value(sp.last())
    }
}

fn push_x<'a>(names: &[&'a str]) -> (r: Vec<&'a str>)
    ensures
        r@.map_values(|s: &str| s@) == names@.map_values(|s: &str| s@).push("x"@),
{
    let mut out: Vec<&'a str> = Vec::new();
    let mut i: usize = 0;
    while i < names.len()
        invariant
            i <= names@.len(),
            out@ == names@.subrange(0, i as int),
        decreases names@.len() - i,
    {
        out.push(names[i]);
        i = i + 1;
    }
    out.push("x");
    proof {
        reveal_strlit("x");
        assert(out@.map_values(|s: &str| s@) =~= names@.map_values(|s: &str| s@).push("x"@));
    }
    out
}

impl Term {
    /// Render the term, with `names` naming the enclosing binders
    /// (outermost first).
    pub fn fmt_with_names(&self, names: &[&str]) -> (r: String)
        ensures
            r@ == show_term(*self, names@.map_values(|s: &str| s@)),
        decreases self,
    {
        let ghost nv = names@.map_values(|s: &str| s@);
        match self {
            Term::Var(i) => {
                if *i < names.len() {
                    let n = names[names.len() - 1 - *i];
                    String::from_str(n)
                } else {
                    let mut s = String::from_str("#");
                    s.append(decimal_string(*i as u64).as_str());
                    proof { reveal_strlit("#"); }
                    s
                }
            },
            Term::Universe(level) => {
                let mut s = String::from_str("Type");
                s.append(decimal_string(level.0 as u64).as_str());
                proof { reveal_strlit("Type"); }
                s
            },
            Term::Pi(dom, cod) => {
                let inner = push_x(names);
                let d = dom.fmt_with_names(names);
                let c = cod.fmt_with_names(inner.as_slice());
                let mut s = String::from_str("(Π _ : ");
                s.append(d.as_str());
                s.append(". ");
                s.append(c.as_str());
                s.append(")");
                proof { reveal_strlit("(Π _ : "); reveal_strlit(". "); reveal_strlit(")"); }
                s
            },
            Term::Lambda(body) => {
                let inner = push_x(names);
                let b = body.fmt_with_names(inner.as_slice());
                let mut s = String::from_str("(λ ");
                s.append(b.as_str());
                s.append(")");
                proof { reveal_strlit("(λ "); reveal_strlit(")"); }
                s
            },
            Term::App(fun, arg) => {
                let f = fun.fmt_with_names(names);
                let a = arg.fmt_with_names(names);
                let mut s = String::from_str("(");
                s.append(f.as_str());
                s.append(" ");
                s.append(a.as_str());
                s.append(")");
                proof { reveal_strlit("("); reveal_strlit(" "); reveal_strlit(")"); }
                s
            },
            Term::Let(binding, body) => {
                let inner = push_x(names);
                let v = binding.fmt_with_names(names);
                let b = body.fmt_with_names(inner.as_slice());
                let mut s = String::from_str("(let ");
                s.append(v.as_str());
                s.append(" in ");
                s.append(b.as_str());
                s.append(")");
                proof { reveal_strlit("(let "); reveal_strlit(" in "); reveal_strlit(")"); }
                s
            },
            Term::Meta(id) => {
                let mut s = String::from_str("?");
                s.append(decimal_string(*id as u64).as_str());
                proof { reveal_strlit("?"); }
                s
            },
        }
    }

    /// Render the term with no names for its free variables.
    pub fn to_display_string(&self) -> (r: String)
        ensures
            r@ == show_term(*self, Seq::empty()),
    {
        let names: Vec<&str> = Vec::new();
        proof {
            assert(names@.map_values(|s: &str| s@) =~= Seq::<Seq<char>>::empty());
        }
        self.fmt_with_names(names.as_slice())
    }
}

impl Value {
    /// Render the value.
    pub fn to_display_string(&self) -> (r: String)
        ensures
            r@ == show_value(self@),
        decreases self,
    {
        match self {
            Value::Var(level) => {
                let mut s = String::from_str("#");
                s.append(decimal_string(*level as u64).as_str());
                proof { reveal_strlit("#"); }
                s
            },
            Value::Universe(level) => {
                let mut s = String::from_str("Type");
                s.append(decimal_string(level.0 as u64).as_str());
                proof { reveal_strlit("Type"); }
                s
            },
            Value::Pi(domain, _) => {
                let d = domain.to_display_string();
                let mut s = String::from_str("(Π _ : ");
                s.append(d.as_str());
                s.append(". ...)");
                proof { reveal_strlit("(Π _ : "); reveal_strlit(". ...)"); }
                s
            },
            Value::Lambda(_) => {
                proof { reveal_strlit("(λ ...)"); }
                String::from_str("(λ ...)")
            },
            Value::Neutral(neutral) => {
                let mut s = String::from_str("#");
                s.append(decimal_string(neutral.head as u64).as_str());
                proof { reveal_strlit("#"); }
                let ghost sp = seq_view(neutral.spine@);
                let mut i: usize = 0;
                while i < neutral.spine.len()
                    invariant
                        i <= neutral.spine@.len(),
                        sp == seq_view(neutral.spine@),
                        self@ == SemVal::Neutral(neutral.head, sp),
                        *self is Neutral && self->0 == *neutral,
                        s@ == "#"@ + decimal(neutral.head as nat) + show_args(sp.subrange(0, i as int)),
                    decreases neutral.spine@.len() - i,
                {
                    proof {
                        assert(*self is Neutral && self->0 == *neutral);
                        assert(decreases_to!(*self => self->0));
                        assert(decreases_to!(self->0 => self->0.spine));
                        assert(decreases_to!(self->0.spine => self->0.spine@));
                        assert(decreases_to!(self->0.spine@ => self->0.spine@[i as int]));
                    }
                    let a = neutral.spine[i].to_display_string();
                    s.append(" ");
                    s.append(a.as_str());
                    proof {
                        reveal_strlit(" ");
                        assert(sp.subrange(0, i + 1).drop_last() =~= sp.subrange(0, i as int));
                        assert(s@ =~= "#"@ + decimal(neutral.head as nat) + show_args(sp.subrange(0, i + 1)));
                    }
                    i = i + 1;
                }
                proof {
                    assert(sp.subrange(0, sp.len() as int) =~= sp);
                }
                s
            },
        }
    }
}

/// Texts joined with `", "` between them.
pub open spec fn join_comma(items: Seq<Seq<char>>) -> Seq<char>
    decreases items.len(),
{
    if items.len() == 0 {
        Seq::empty()
    } else if items.len() == 1 {
        items[0]
    } else {
        join_comma(items.drop_last()) + ", "@ + items.last()
    }
}

/// The renderings of a list of values.
pub open spec fn show_values(vs: Seq<SemVal>) -> Seq<Seq<char>> {
    vs.map_values(|v: SemVal| show_value(v))
}

impl Environment {
    /// Render the environment as `[v1, v2, ...]`.
    pub fn to_display_string(&self) -> (r: String)
        ensures
            r@ == "["@ + join_comma(show_values(self@)) + "]"@,
    {
        let values = self.values();
        let ghost items = show_values(self@);
        let mut s = String::from_str("[");
        proof {
            reveal_strlit("[");
            reveal_strlit(", ");
            reveal_strlit("]");
            assert(items.take(0) =~= Seq::<Seq<char>>::empty());
        }
        let mut i: usize = 0;
        while i < values.len()
            invariant
                i <= values@.len(),
                seq_view(values@) == self@,
                items == show_values(self@),
                s@ == "["@ + join_comma(items.take(i as int)),
            decreases values@.len() - i,
        {
            if i > 0 {
                s.append(", ");
            }
            let text = (*values[i]).to_display_string();
            s.append(text.as_str());
            proof {
                let t = items.take(i + 1);
                assert(t.drop_last() =~= items.take(i as int));
                assert(t.last() == show_value(values@[i as int]@));
                if i == 0 {
                    assert(t =~= seq![show_value(values@[0]@)]);
                }
            }
            i = i + 1;
        }
        assert(items.take(values@.len() as int) =~= items);
        s.append("]");
        s
    }
}

impl Neutral {
    /// Render the neutral term as its head `#n` followed by its arguments.
    pub fn to_display_string(&self) -> (r: String)
        ensures
            r@ == "#"@ + decimal(self.head as nat) + show_args(seq_view(self.spine@)),
    {
        let v = Value::Neutral(self.copy());
        v.to_display_string()
    }
}

} // verus!
