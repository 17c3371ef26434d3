//! Organizing theorems: categories by namespace, and shape patterns of
//! theorem statements used to match goals.

use vstd::prelude::*;
use crate::text::{starts_with, contains, str_starts_with, str_contains};
use super::types::{LeanTerm, LeanName, SemLean, SemName, name_text, name_set, names_distinct, spec_free_vars};
use crate::optimize::{instant_now, instant_elapsed};
use super::server::duration_as_millis;

verus! {

/// Categories for organizing mathematical theorems
#[derive(Debug, Clone, Copy, PartialEq, Eq, Hash, Structural)]
pub enum TheoremCategory {
    Logic,
    SetTheory,
    TypeTheory,
    GroupTheory,
    RingTheory,
    FieldTheory,
    LinearAlgebra,
    RealAnalysis,
    ComplexAnalysis,
    FunctionalAnalysis,
    Topology,
    Geometry,
    DifferentialGeometry,
    AlgebraicGeometry,
    NumberTheory,
    AlgebraicNumberTheory,
    Combinatorics,
    GraphTheory,
    CategoryTheory,
    HomologicalAlgebra,
    MeasureTheory,
    ProbabilityTheory,
    ProofTheory,
    ModelTheory,
    Unknown,
}

/// The category a theorem name falls in, by its namespace prefix or by
/// words it contains, checked in a fixed order.
pub open spec fn spec_category(name: Seq<char>) -> TheoremCategory {
    if starts_with(name, "Logic."@) || contains(name, "Prop."@) {
        TheoremCategory::Logic
    } else if starts_with(name, "Set."@) {
        TheoremCategory::SetTheory
    } else if starts_with(name, "Group."@) || contains(name, "Group"@) {
        TheoremCategory::GroupTheory
    } else if starts_with(name, "Ring."@) || contains(name, "Ring"@) {
        TheoremCategory::RingTheory
    } else if starts_with(name, "Field."@) || contains(name, "Field"@) {
        TheoremCategory::FieldTheory
    } else if starts_with(name, "LinearAlgebra."@) || contains(name, "LinearMap"@) {
        TheoremCategory::LinearAlgebra
    } else if starts_with(name, "Real."@) || contains(name, "Real"@) {
        TheoremCategory::RealAnalysis
    } else if starts_with(name, "Complex."@) {
        TheoremCategory::ComplexAnalysis
    } else if starts_with(name, "Topology."@) {
        TheoremCategory::Topology
    } else if starts_with(name, "Geometry."@) {
        TheoremCategory::Geometry
    } else if starts_with(name, "NumberTheory."@) {
        TheoremCategory::NumberTheory
    } else if starts_with(name, "Combinatorics."@) {
        TheoremCategory::Combinatorics
    } else if starts_with(name, "CategoryTheory."@) {
        TheoremCategory::CategoryTheory
    } else if starts_with(name, "MeasureTheory."@) {
        TheoremCategory::MeasureTheory
    } else {
        TheoremCategory::Unknown
    }
}

impl TheoremCategory {
    /// Get all categories, in declaration order
    pub fn all() -> (r: Vec<TheoremCategory>)
        ensures
            r@ == seq![
                TheoremCategory::Logic, TheoremCategory::SetTheory, TheoremCategory::TypeTheory,
                TheoremCategory::GroupTheory, TheoremCategory::RingTheory, TheoremCategory::FieldTheory,
                TheoremCategory::LinearAlgebra, TheoremCategory::RealAnalysis, TheoremCategory::ComplexAnalysis,
                TheoremCategory::FunctionalAnalysis, TheoremCategory::Topology, TheoremCategory::Geometry,
                TheoremCategory::DifferentialGeometry, TheoremCategory::AlgebraicGeometry,
                TheoremCategory::NumberTheory, TheoremCategory::AlgebraicNumberTheory,
                TheoremCategory::Combinatorics, TheoremCategory::GraphTheory, TheoremCategory::CategoryTheory,
                TheoremCategory::HomologicalAlgebra, TheoremCategory::MeasureTheory,
                TheoremCategory::ProbabilityTheory, TheoremCategory::ProofTheory, TheoremCategory::ModelTheory,
                TheoremCategory::Unknown,
            ],
    {
        vec![
            TheoremCategory::Logic, TheoremCategory::SetTheory, TheoremCategory::TypeTheory,
            TheoremCategory::GroupTheory, TheoremCategory::RingTheory, TheoremCategory::FieldTheory,
            TheoremCategory::LinearAlgebra, TheoremCategory::RealAnalysis, TheoremCategory::ComplexAnalysis,
            TheoremCategory::FunctionalAnalysis, TheoremCategory::Topology, TheoremCategory::Geometry,
            TheoremCategory::DifferentialGeometry, TheoremCategory::AlgebraicGeometry,
            TheoremCategory::NumberTheory, TheoremCategory::AlgebraicNumberTheory,
            TheoremCategory::Combinatorics, TheoremCategory::GraphTheory, TheoremCategory::CategoryTheory,
            TheoremCategory::HomologicalAlgebra, TheoremCategory::MeasureTheory,
            TheoremCategory::ProbabilityTheory, TheoremCategory::ProofTheory, TheoremCategory::ModelTheory,
            TheoremCategory::Unknown,
        ]
    }

    /// Categorize a theorem by its name
    pub fn from_name(name: &str) -> (r: Self)
        ensures
            r == spec_category(name@),
    {
        if str_starts_with(name, "Logic.") || str_contains(name, "Prop.") {
            TheoremCategory::Logic
        } else if str_starts_with(name, "Set.") {
            TheoremCategory::SetTheory
        } else if str_starts_with(name, "Group.") || str_contains(name, "Group") {
            TheoremCategory::GroupTheory
        } else if str_starts_with(name, "Ring.") || str_contains(name, "Ring") {
            TheoremCategory::RingTheory
        } else if str_starts_with(name, "Field.") || str_contains(name, "Field") {
            TheoremCategory::FieldTheory
        } else if str_starts_with(name, "LinearAlgebra.") || str_contains(name, "LinearMap") {
            TheoremCategory::LinearAlgebra
        } else if str_starts_with(name, "Real.") || str_contains(name, "Real") {
            TheoremCategory::RealAnalysis
        } else if str_starts_with(name, "Complex.") {
            TheoremCategory::ComplexAnalysis
        } else if str_starts_with(name, "Topology.") {
            TheoremCategory::Topology
        } else if str_starts_with(name, "Geometry.") {
            TheoremCategory::Geometry
        } else if str_starts_with(name, "NumberTheory.") {
            TheoremCategory::NumberTheory
        } else if str_starts_with(name, "Combinatorics.") {
            TheoremCategory::Combinatorics
        } else if str_starts_with(name, "CategoryTheory.") {
            TheoremCategory::CategoryTheory
        } else if str_starts_with(name, "MeasureTheory.") {
            TheoremCategory::MeasureTheory
        } else {
            TheoremCategory::Unknown
        }
    }
}

/// Queries over a theorem database
#[derive(Debug)]
pub enum SearchQuery {
    /// Search by theorem name pattern
    ByName(String),
    /// Search by category
    ByCategory(TheoremCategory),
    /// Search by type signature
    ByType(LeanTerm),
    /// Search by free variable name
    ByVariable(String),
    /// Search in documentation
    ByDocumentation(String),
    /// Combined search (intersection)
    Combined(Vec<SearchQuery>),
}

/// The head symbol of a statement: `Sort`, a constant's name, the head of
/// an application's function, `Pi`, or `Unknown`.
pub open spec fn spec_head(t: SemLean) -> Seq<char>
    decreases t,
{
    match t {
        SemLean::Sort(_) => "Sort"@,
        SemLean::Const(n) => name_text(n),
        SemLean::App(f, _) => spec_head(*f),
        SemLean::Pi(_, _, _) => "Pi"@,
        _ => "Unknown"@,
    }
}

/// The number of arguments: one per application around the head, and one
/// for a Pi.
pub open spec fn spec_arity(t: SemLean) -> nat
    decreases t,
{
    match t {
        SemLean::App(f, _) => 1 + spec_arity(*f),
        SemLean::Pi(_, _, _) => 1,
        _ => 0,
    }
}

/// Whether the head is the constant `Prop`.
pub open spec fn spec_is_prop(t: SemLean) -> bool
    decreases t,
{
    match t {
        SemLean::Const(n) => name_text(n) == "Prop"@,
        SemLean::App(f, _) => spec_is_prop(*f),
        _ => false,
    }
}

/// Whether the head is a Pi (a function type, dependent).
pub open spec fn spec_is_function(t: SemLean) -> bool
    decreases t,
{
    match t {
        SemLean::Pi(_, _, _) => true,
        SemLean::App(f, _) => spec_is_function(*f),
        _ => false,
    }
}

/// Pattern for matching theorem types
#[derive(Debug, Clone)]
pub struct TypePattern {
    /// Head symbol of the type
    pub head: String,
    /// Number of arguments
    pub arity: usize,
    /// Whether it's a proposition (Prop)
    pub is_prop: bool,
    /// Whether it's a function type
    pub is_function: bool,
    /// Whether it's a dependent type (Π)
    pub is_dependent: bool,
}

impl TypePattern {
    /// Extract the pattern of a Lean term
    pub fn from_term(term: &LeanTerm) -> (r: Self)
        requires
            spec_arity(term@) <= usize::MAX,
        ensures
            r.head@ == spec_head(term@),
            r.arity == spec_arity(term@),
            r.is_prop == spec_is_prop(term@),
            r.is_function == spec_is_function(term@),
            r.is_dependent == spec_is_function(term@),
        decreases term,
    {
        match term {
            LeanTerm::Sort(_) => TypePattern {
                head: String::from_str("Sort"),
                arity: 0,
                is_prop: false,
                is_function: false,
                is_dependent: false,
            },
            LeanTerm::Const(name) => {
                let text = name.to_string();
                let prop = String::from_str("Prop");
                let is_prop = text == prop;
                TypePattern { head: text, arity: 0, is_prop, is_function: false, is_dependent: false }
            },
            LeanTerm::App(f, _) => {
                let mut pattern = Self::from_term(f);
                pattern.arity = pattern.arity + 1;
                pattern
            },
            LeanTerm::Pi(_, _, _) => TypePattern {
                head: String::from_str("Pi"),
                arity: 1,
                is_prop: false,
                is_function: true,
                is_dependent: true,
            },
            _ => TypePattern {
                head: String::from_str("Unknown"),
                arity: 0,
                is_prop: false,
                is_function: false,
                is_dependent: false,
            },
        }
    }

    /// Whether a term matches: the same head, or both propositions, or both
    /// function types
    pub fn matches(&self, term: &LeanTerm) -> (r: bool)
        requires
            spec_arity(term@) <= usize::MAX,
        ensures
            r == (self.head@ == spec_head(term@) || (self.is_prop && spec_is_prop(term@))
                || (self.is_function && spec_is_function(term@))),
    {
        let other = Self::from_term(term);
        if self.head == other.head {
            return true;
        }
        if self.is_prop && other.is_prop {
            return true;
        }
        if self.is_function && other.is_function {
            return true;
        }
        false
    }
}

/// Query counters of the theorem database.
#[derive(Debug)]
pub struct DatabaseMetrics {
    pub total_queries: u64,
    pub cache_hits: u64,
    pub avg_query_time_ms: u64,
    pub theorem_applications: u64,
}

impl Default for DatabaseMetrics {
    /// All counters zero
    fn default() -> (r: Self)
        ensures
            r.total_queries == 0,
            r.cache_hits == 0,
            r.avg_query_time_ms == 0,
            r.theorem_applications == 0,
    {
        DatabaseMetrics { total_queries: 0, cache_hits: 0, avg_query_time_ms: 0, theorem_applications: 0 }
    }
}

impl DatabaseMetrics {
    /// Count a query that took `millis` milliseconds and fold it into the
    /// average query time (the weighted sum in wrapping 64-bit arithmetic)
    pub fn record_query(&mut self, millis: u64)
        requires
            old(self).total_queries < u64::MAX,
        ensures
            final(self).total_queries == old(self).total_queries + 1,
            final(self).avg_query_time_ms == old(self).avg_query_time_ms.wrapping_mul(old(self).total_queries)
                .wrapping_add(millis) / (old(self).total_queries + 1) as u64,
            final(self).cache_hits == old(self).cache_hits,
            final(self).theorem_applications == old(self).theorem_applications,
    {
        self.total_queries = self.total_queries + 1;
        let old_avg = self.avg_query_time_ms;
        let total_queries = self.total_queries;
        let new_avg = old_avg.wrapping_mul(total_queries - 1).wrapping_add(millis) / total_queries;
        self.avg_query_time_ms = new_avg;
    }

    /// Count a query answered from the cache
    pub fn record_cache_hit(&mut self)
        ensures
            final(self).cache_hits == old(self).cache_hits.wrapping_add(1),
            final(self).total_queries == old(self).total_queries,
            final(self).avg_query_time_ms == old(self).avg_query_time_ms,
            final(self).theorem_applications == old(self).theorem_applications,
    {
        self.cache_hits = self.cache_hits.wrapping_add(1);
    }

    /// Count a theorem applied
    pub fn record_theorem_application(&mut self)
        ensures
            final(self).theorem_applications == old(self).theorem_applications.wrapping_add(1),
            final(self).total_queries == old(self).total_queries,
            final(self).cache_hits == old(self).cache_hits,
            final(self).avg_query_time_ms == old(self).avg_query_time_ms,
    {
        self.theorem_applications = self.theorem_applications.wrapping_add(1);
    }
}

// ---------------------------------------------------------------------
// Theorems
// ---------------------------------------------------------------------

/// The texts of a list of strings.
pub open spec fn texts(s: Seq<String>) -> Seq<Seq<char>> {
    s.map_values(|x: String| x@)
}

/// The abstract names of a list of names.
pub open spec fn name_views(s: Seq<LeanName>) -> Seq<SemName> {
    s.map_values(|n: LeanName| n@)
}

/// The text of an optional string.
pub open spec fn opt_text(o: Option<String>) -> Option<Seq<char>> {
    match o {
        Some(s) => Some(s@),
        None => None,
    }
}

/// The abstract content of a theorem entry.
pub struct TheoremView {
    pub name: Seq<char>,
    pub statement: SemLean,
    pub proof: Option<SemLean>,
    pub dependencies: Seq<Seq<char>>,
    pub category: TheoremCategory,
    pub complexity: u32,
    pub free_vars: Seq<SemName>,
    pub pattern: (Seq<char>, usize, bool, bool, bool),
    pub doc_string: Option<Seq<char>>,
    pub source_file: Option<Seq<char>>,
    pub source_line: Option<u32>,
    pub usage_count: u64,
}

/// Metadata about a mathlib theorem (its mean proof time, a float, is
/// kept by the program around the library)
pub struct MathlibTheorem {
    /// Fully qualified name in Lean
    pub name: String,
    /// The theorem statement
    pub statement: LeanTerm,
    /// Optional proof term
    pub proof: Option<LeanTerm>,
    /// Theorems this theorem uses
    pub dependencies: Vec<String>,
    /// Category by namespace
    pub category: TheoremCategory,
    /// Complexity score
    pub complexity: u32,
    /// Free variables of the statement
    pub free_vars: Vec<LeanName>,
    /// Shape pattern of the statement
    pub type_pattern: TypePattern,
    /// Documentation string if available
    pub doc_string: Option<String>,
    /// Source location in mathlib
    pub source_file: Option<String>,
    pub source_line: Option<u32>,
    /// How often the theorem was used
    pub usage_count: u64,
}

impl View for MathlibTheorem {
    type V = TheoremView;

    open spec fn view(&self) -> TheoremView {
        TheoremView {
            name: self.name@,
            statement: self.statement@,
            proof: match self.proof { Some(p) => Some(p@), None => None },
            dependencies: texts(self.dependencies@),
            category: self.category,
            complexity: self.complexity,
            free_vars: name_views(self.free_vars@),
            pattern: (self.type_pattern.head@, self.type_pattern.arity, self.type_pattern.is_prop,
                self.type_pattern.is_function, self.type_pattern.is_dependent),
            doc_string: opt_text(self.doc_string),
            source_file: opt_text(self.source_file),
            source_line: self.source_line,
            usage_count: self.usage_count,
        }
    }
}

/// The complexity score of a statement: one per leaf, five more per
/// binder, three more per `let`.
pub open spec fn spec_complexity(t: SemLean) -> nat
    decreases t,
{
    match t {
        SemLean::Var(_) | SemLean::Const(_) | SemLean::Sort(_) => 1,
        SemLean::App(f, x) => spec_complexity(*f) + spec_complexity(*x),
        SemLean::Lambda(_, ty, b) => 5 + spec_complexity(*ty) + spec_complexity(*b),
        SemLean::Pi(_, ty, b) => 5 + spec_complexity(*ty) + spec_complexity(*b),
        SemLean::Let(_, ty, v, b) => 3 + spec_complexity(*ty) + spec_complexity(*v) + spec_complexity(*b),
    }
}

fn estimate_complexity(term: &LeanTerm) -> (r: u32)
    requires
        spec_complexity(term@) <= u32::MAX,
    ensures
        r == spec_complexity(term@),
    decreases term,
{
    match term {
        LeanTerm::Var(_) | LeanTerm::Const(_) | LeanTerm::Sort(_) => 1,
        LeanTerm::App(f, x) => estimate_complexity(f) + estimate_complexity(x),
        LeanTerm::Lambda(_, ty, body) | LeanTerm::Pi(_, ty, body) => 5 + estimate_complexity(ty) + estimate_complexity(body),
        LeanTerm::Let(_, ty, val, body) => 3 + estimate_complexity(ty) + estimate_complexity(val) + estimate_complexity(body),
    }
}

/// A copy of a string.
fn copy_text(s: &String) -> (r: String)
    ensures
        r@ == s@,
{
    String::from_str(s.as_str())
}

/// A copy of an optional string.
fn copy_opt_text(s: &Option<String>) -> (r: Option<String>)
    ensures
        opt_text(r) == opt_text(*s),
{
    match s {
        Some(t) => Some(copy_text(t)),
        None => None,
    }
}

/// A copy of a list of strings.
fn copy_texts(v: &Vec<String>) -> (r: Vec<String>)
    ensures
        texts(r@) == texts(v@),
{
    let mut r: Vec<String> = Vec::new();
    let mut i: usize = 0;
    while i < v.len()
        invariant
            i <= v@.len(),
            r@.len() == i,
            forall|j: int| 0 <= j < i ==> #[trigger] r@[j]@ == v@[j]@,
        decreases v@.len() - i,
    {
        r.push(copy_text(&v[i]));
        i = i + 1;
    }
    assert(texts(r@) =~= texts(v@)) by {
        assert forall|j: int| 0 <= j < v@.len() implies texts(r@)[j] == texts(v@)[j] by {
            assert(r@[j]@ == v@[j]@);
        }
    }
    r
}

/// A copy of a list of names.
fn copy_names(v: &Vec<LeanName>) -> (r: Vec<LeanName>)
    ensures
        name_views(r@) == name_views(v@),
{
    let mut r: Vec<LeanName> = Vec::new();
    let mut i: usize = 0;
    while i < v.len()
        invariant
            i <= v@.len(),
            r@.len() == i,
            forall|j: int| 0 <= j < i ==> #[trigger] r@[j]@ == v@[j]@,
        decreases v@.len() - i,
    {
        r.push(v[i].copy());
        i = i + 1;
    }
    assert(name_views(r@) =~= name_views(v@)) by {
        assert forall|j: int| 0 <= j < v@.len() implies name_views(r@)[j] == name_views(v@)[j] by {
            assert(r@[j]@ == v@[j]@);
        }
    }
    r
}

impl TypePattern {
    /// A copy of the pattern
    pub fn copy(&self) -> (r: Self)
        ensures
            r.head@ == self.head@,
            r.arity == self.arity,
            r.is_prop == self.is_prop,
            r.is_function == self.is_function,
            r.is_dependent == self.is_dependent,
    {
        TypePattern {
            head: copy_text(&self.head),
            arity: self.arity,
            is_prop: self.is_prop,
            is_function: self.is_function,
            is_dependent: self.is_dependent,
        }
    }
}

impl MathlibTheorem {
    /// A theorem entry for a statement: its category by the name, its free
    /// variables, its complexity and pattern; no proof, dependencies,
    /// documentation or source, never used
    pub fn new(name: String, statement: LeanTerm) -> (r: Self)
        requires
            spec_complexity(statement@) <= u32::MAX,
            spec_arity(statement@) <= usize::MAX,
        ensures
            r@.name == name@,
            r@.statement == statement@,
            r@.proof is None,
            r@.dependencies == Seq::<Seq<char>>::empty(),
            r@.category == spec_category(name@),
            r@.complexity == spec_complexity(statement@),
            r@.free_vars.to_set() == spec_free_vars(statement@, Set::empty()),
            r@.free_vars.no_duplicates(),
            r@.pattern == (spec_head(statement@), spec_arity(statement@) as usize, spec_is_prop(statement@),
                spec_is_function(statement@), spec_is_function(statement@)),
            r@.doc_string is None,
            r@.source_file is None,
            r@.source_line is None,
            r@.usage_count == 0,
    {
        let category = TheoremCategory::from_name(name.as_str());
        let free_vars = statement.free_vars();
        let complexity = estimate_complexity(&statement);
        let type_pattern = TypePattern::from_term(&statement);
        let r = MathlibTheorem {
            name,
            statement,
            proof: None,
            dependencies: Vec::new(),
            category,
            complexity,
            free_vars,
            type_pattern,
            doc_string: None,
            source_file: None,
            source_line: None,
            usage_count: 0,
        };
        proof {
            let fv = name_views(r.free_vars@);
            assert(fv.to_set() =~= name_set(r.free_vars@)) by {
                assert forall|n: SemName| fv.to_set().contains(n) implies name_set(r.free_vars@).contains(n) by {
                    let i = choose|i: int| 0 <= i < fv.len() && fv[i] == n;
                    assert(r.free_vars@[i]@ == n);
                }
                assert forall|n: SemName| name_set(r.free_vars@).contains(n) implies fv.to_set().contains(n) by {
                    let i = choose|i: int| 0 <= i < r.free_vars@.len() && #[trigger] r.free_vars@[i]@ == n;
                    assert(fv[i] == n);
                }
            }
            assert(fv.no_duplicates()) by {
                assert forall|i: int, j: int| 0 <= i < fv.len() && 0 <= j < fv.len() && i != j implies fv[i] != fv[j] by {
                    if i < j {
                        assert(r.free_vars@[i]@ != r.free_vars@[j]@);
                    } else {
                        assert(r.free_vars@[j]@ != r.free_vars@[i]@);
                    }
                }
            }
            assert(r@.dependencies =~= Seq::<Seq<char>>::empty());
        }
        r
    }

    /// A copy of the entry
    pub fn copy(&self) -> (r: Self)
        ensures
            r@ == self@,
    {
        let r = MathlibTheorem {
            name: copy_text(&self.name),
            statement: self.statement.copy(),
            proof: match &self.proof {
                Some(p) => Some(p.copy()),
                None => None,
            },
            dependencies: copy_texts(&self.dependencies),
            category: self.category,
            complexity: self.complexity,
            free_vars: copy_names(&self.free_vars),
            type_pattern: self.type_pattern.copy(),
            doc_string: copy_opt_text(&self.doc_string),
            source_file: copy_opt_text(&self.source_file),
            source_line: self.source_line,
            usage_count: self.usage_count,
        };
        r
    }

    /// Whether the theorem might apply to a goal: its pattern matches the
    /// goal's
    pub fn is_applicable_to(&self, goal: &LeanTerm) -> (r: bool)
        requires
            spec_arity(goal@) <= usize::MAX,
        ensures
            r == spec_applicable(self@, goal@),
    {
        self.type_pattern.matches(goal)
    }
}

/// Whether a theorem's pattern matches a goal: the same head, or both
/// propositions, or both function types.
pub open spec fn spec_applicable(t: TheoremView, goal: SemLean) -> bool {
    t.pattern.0 == spec_head(goal) || (t.pattern.2 && spec_is_prop(goal)) || (t.pattern.3 && spec_is_function(goal))
}

// ---------------------------------------------------------------------
// The search index
// ---------------------------------------------------------------------

/// The whitespace-separated words of a text, as `str::split_whitespace`
/// yields them.
pub uninterp spec fn spec_words(s: Seq<char>) -> Seq<Seq<char>>;

/// The lowercase form of a text, as `str::to_lowercase` gives it.
pub uninterp spec fn spec_lowercase(s: Seq<char>) -> Seq<char>;

/// Calls `str::split_whitespace` and collects the words: the result is
/// named, as a function of the text.
#[verifier::external_body]
fn split_words(s: &str) -> (r: Vec<String>)
    ensures
        texts(r@) == spec_words(s@),
{
    s.split_whitespace().map(String::from).collect()
}

/// Calls `str::to_lowercase`: the result is named, as a function of the
/// text.
#[verifier::external_body]
fn lowercase(s: &str) -> (r: String)
    ensures
        r@ == spec_lowercase(s@),
{
    s.to_lowercase()
}

/// The lowercase words of a text.
pub open spec fn lower_words(s: Seq<char>) -> Seq<Seq<char>> {
    spec_words(s).map_values(|w: Seq<char>| spec_lowercase(w))
}

/// What the index keeps of one added theorem: its name, category, pattern
/// head and arity, the texts of its free variables and the lowercase words
/// of its documentation.
pub struct EntryView {
    pub name: Seq<char>,
    pub category: TheoremCategory,
    pub head: Seq<char>,
    pub arity: usize,
    pub vars: Seq<Seq<char>>,
    pub words: Seq<Seq<char>>,
}

/// The index entry of a theorem.
pub open spec fn entry_of(t: TheoremView) -> EntryView {
    EntryView {
        name: t.name,
        category: t.category,
        head: t.pattern.0,
        arity: t.pattern.1,
        vars: t.free_vars.map_values(|n: SemName| name_text(n)),
        words: match t.doc_string {
            Some(d) => lower_words(d),
            None => Seq::empty(),
        },
    }
}

/// What the index keeps of one added theorem.
pub struct IndexEntry {
    name: String,
    category: TheoremCategory,
    head: String,
    arity: usize,
    vars: Vec<String>,
    words: Vec<String>,
}

impl View for IndexEntry {
    type V = EntryView;

    closed spec fn view(&self) -> EntryView {
        EntryView {
            name: self.name@,
            category: self.category,
            head: self.head@,
            arity: self.arity,
            vars: texts(self.vars@),
            words: texts(self.words@),
        }
    }
}

/// The entries of an index as views.
pub open spec fn entry_views(s: Seq<IndexEntry>) -> Seq<EntryView> {
    s.map_values(|e: IndexEntry| e@)
}

/// The names of the entries of a category, in the order added.
pub open spec fn spec_by_category(es: Seq<EntryView>, c: TheoremCategory) -> Seq<Seq<char>>
    decreases es.len(),
{
    if es.len() == 0 {
        Seq::empty()
    } else {
        let rest = spec_by_category(es.drop_last(), c);
        if es.last().category == c { rest.push(es.last().name) } else { rest }
    }
}

/// The names of the entries with a pattern head and arity, in the order
/// added.
pub open spec fn spec_by_pattern(es: Seq<EntryView>, head: Seq<char>, arity: nat) -> Seq<Seq<char>>
    decreases es.len(),
{
    if es.len() == 0 {
        Seq::empty()
    } else {
        let rest = spec_by_pattern(es.drop_last(), head, arity);
        if es.last().head == head && es.last().arity == arity { rest.push(es.last().name) } else { rest }
    }
}

/// The test that keeps a text equal to `var`.
pub open spec fn is_text(var: Seq<char>) -> spec_fn(Seq<char>) -> bool {
    |v: Seq<char>| v == var
}

/// A name repeated `k` times.
pub open spec fn repeat_name(name: Seq<char>, k: nat) -> Seq<Seq<char>> {
    Seq::new(k, |i: int| name)
}

/// The names of the entries with a free variable of a text, in the order
/// added, once per such variable.
pub open spec fn spec_by_variable(es: Seq<EntryView>, var: Seq<char>) -> Seq<Seq<char>>
    decreases es.len(),
{
    if es.len() == 0 {
        Seq::empty()
    } else {
        let e = es.last();
        spec_by_variable(es.drop_last(), var) + repeat_name(e.name, e.vars.filter(is_text(var)).len())
    }
}

/// The names of the entries whose name contains a pattern.
pub open spec fn spec_by_name(es: Seq<EntryView>, pattern: Seq<char>) -> Set<Seq<char>> {
    Set::new(|n: Seq<char>| exists|i: int| 0 <= i < es.len() && #[trigger] es[i].name == n && contains(n, pattern))
}

/// The names of the entries whose documentation has a word.
pub open spec fn spec_with_word(es: Seq<EntryView>, w: Seq<char>) -> Set<Seq<char>> {
    Set::new(|n: Seq<char>| exists|i: int| 0 <= i < es.len() && #[trigger] es[i].name == n && es[i].words.contains(w))
}

/// The names of the entries whose documentation has every lowercase word
/// of a query; none for a query without words.
pub open spec fn spec_by_documentation(es: Seq<EntryView>, query: Seq<char>) -> Set<Seq<char>> {
    let ws = lower_words(query);
    if ws.len() == 0 {
        Set::empty()
    } else {
        Set::new(|n: Seq<char>| forall|k: int| 0 <= k < ws.len() ==> #[trigger] spec_with_word(es, ws[k]).contains(n))
    }
}

/// Whether a text is among a list's.
fn has_text(v: &Vec<String>, x: &String) -> (r: bool)
    ensures
        r == texts(v@).contains(x@),
{
    let mut i: usize = 0;
    while i < v.len()
        invariant
            i <= v@.len(),
            forall|j: int| 0 <= j < i ==> v@[j]@ != x@,
        decreases v@.len() - i,
    {
        if v[i] == *x {
            assert(texts(v@)[i as int] == x@);
            return true;
        }
        i = i + 1;
    }
    proof {
        if texts(v@).contains(x@) {
            let j = choose|j: int| 0 <= j < texts(v@).len() && texts(v@)[j] == x@;
            assert(v@[j]@ == x@);
        }
    }
    false
}

/// The texts of `a` that `b` has too, each once, in the order of `a`.
fn intersect(a: &Vec<String>, b: &Vec<String>) -> (r: Vec<String>)
    ensures
        texts(r@).to_set() == texts(a@).to_set().intersect(texts(b@).to_set()),
        texts(r@).no_duplicates(),
{
    let ghost ga = texts(a@);
    let ghost gb = texts(b@);
    let mut r: Vec<String> = Vec::new();
    let mut i: usize = 0;
    while i < a.len()
        invariant
            i <= a@.len(),
            ga == texts(a@),
            gb == texts(b@),
            forall|n: Seq<char>| #[trigger] texts(r@).contains(n) <==> (ga.take(i as int).contains(n) && gb.contains(n)),
            texts(r@).no_duplicates(),
        decreases a@.len() - i,
    {
        let ghost before = texts(r@);
        let x = &a[i];
        assert(ga[i as int] == x@);
        assert(ga.take(i + 1) =~= ga.take(i as int).push(x@));
        let ghost nx = ga.take(i + 1);
        let ghost px = ga.take(i as int);
        if has_text(b, x) && !has_text(&r, x) {
            r.push(copy_text(x));
            assert(texts(r@) =~= before.push(x@));
            assert forall|n: Seq<char>| #[trigger] texts(r@).contains(n) <==> (ga.take(i + 1).contains(n) && gb.contains(n)) by {
                if n != x@ {
                    if texts(r@).contains(n) {
                        let k = choose|k: int| 0 <= k < texts(r@).len() && texts(r@)[k] == n;
                        assert(before[k] == n);
                        assert(before.contains(n));
                    }
                    if ga.take(i + 1).contains(n) {
                        let k = choose|k: int| 0 <= k < nx.len() && nx[k] == n;
                        assert(px[k] == n);
                    }
                    if before.contains(n) {
                        let k = choose|k: int| 0 <= k < before.len() && before[k] == n;
                        assert(texts(r@)[k] == n);
                    }
                } else {
                    assert(texts(r@)[texts(r@).len() - 1] == n);
                    assert(nx[i as int] == n);
                }
            }
        } else {
            assert(texts(r@) == before);
            assert forall|n: Seq<char>| #[trigger] texts(r@).contains(n) <==> (ga.take(i + 1).contains(n) && gb.contains(n)) by {
                if n == x@ {
                    assert(nx[i as int] == n);
                } else if ga.take(i + 1).contains(n) {
                    let k = choose|k: int| 0 <= k < nx.len() && nx[k] == n;
                    assert(px[k] == n);
                }
            }
        }
        i = i + 1;
    }
    assert(ga.take(a@.len() as int) =~= ga);
    assert(texts(r@).to_set() =~= ga.to_set().intersect(gb.to_set()));
    r
}

/// Search index over the theorems added, in the order added
pub struct SearchIndex {
    entries: Vec<IndexEntry>,
}

impl SearchIndex {
    /// The entries, in the order added.
    pub closed spec fn spec_entries(&self) -> Seq<EntryView> {
        entry_views(self.entries@)
    }

    /// An empty index
    pub fn new() -> (r: Self)
        ensures
            r.spec_entries() == Seq::<EntryView>::empty(),
    {
        let r = SearchIndex { entries: Vec::new() };
        assert(r.spec_entries() =~= Seq::<EntryView>::empty());
        r
    }

    /// Add a theorem's entry
    pub fn add_theorem(&mut self, theorem: &MathlibTheorem)
        ensures
            final(self).spec_entries() == old(self).spec_entries().push(entry_of(theorem@)),
    {
        let mut vars: Vec<String> = Vec::new();
        let mut i: usize = 0;
        while i < theorem.free_vars.len()
            invariant
                i <= theorem.free_vars@.len(),
                vars@.len() == i,
                forall|j: int| 0 <= j < i ==> #[trigger] vars@[j]@ == name_text(theorem.free_vars@[j]@),
            decreases theorem.free_vars@.len() - i,
        {
            vars.push(theorem.free_vars[i].to_string());
            i = i + 1;
        }
        let mut words: Vec<String> = Vec::new();
        match &theorem.doc_string {
            Some(doc) => {
                let raw = split_words(doc.as_str());
                let mut k: usize = 0;
                while k < raw.len()
                    invariant
                        k <= raw@.len(),
                        texts(raw@) == spec_words(doc@),
                        words@.len() == k,
                        forall|j: int| 0 <= j < k ==> #[trigger] words@[j]@ == spec_lowercase(raw@[j]@),
                    decreases raw@.len() - k,
                {
                    words.push(lowercase(raw[k].as_str()));
                    k = k + 1;
                }
                proof {
                    assert(texts(words@) =~= lower_words(doc@)) by {
                        assert forall|j: int| 0 <= j < words@.len() implies texts(words@)[j] == lower_words(doc@)[j] by {
                            assert(texts(raw@)[j] == raw@[j]@);
                        }
                    }
                }
            },
            None => {
                assert(texts(words@) =~= Seq::<Seq<char>>::empty());
            },
        }
        let entry = IndexEntry {
            name: copy_text(&theorem.name),
            category: theorem.category,
            head: copy_text(&theorem.type_pattern.head),
            arity: theorem.type_pattern.arity,
            vars,
            words,
        };
        proof {
            assert(texts(entry.vars@) =~= theorem@.free_vars.map_values(|n: SemName| name_text(n))) by {
                assert forall|j: int| 0 <= j < entry.vars@.len() implies texts(entry.vars@)[j]
                    == theorem@.free_vars.map_values(|n: SemName| name_text(n))[j] by {
                    assert(name_views(theorem.free_vars@)[j] == theorem.free_vars@[j]@);
                }
            }
            assert(entry@ == entry_of(theorem@));
        }
        let ghost before = self.entries@;
        self.entries.push(entry);
        assert(self.spec_entries() =~= entry_views(before).push(entry_of(theorem@)));
    }

    /// The names of the theorems whose name contains a pattern, each once
    pub fn search_by_name(&self, pattern: &str) -> (r: Vec<String>)
        ensures
            texts(r@).to_set() == spec_by_name(self.spec_entries(), pattern@),
            texts(r@).no_duplicates(),
    {
        let ghost es = self.spec_entries();
        let mut raw: Vec<String> = Vec::new();
        let mut i: usize = 0;
        while i < self.entries.len()
            invariant
                i <= self.entries@.len(),
                es == self.spec_entries(),
                forall|n: Seq<char>| #[trigger] texts(raw@).contains(n) <==>
                    (exists|j: int| 0 <= j < i && #[trigger] es[j].name == n && contains(n, pattern@)),
            decreases self.entries@.len() - i,
        {
            let ghost before = texts(raw@);
            let e = &self.entries[i];
            assert(es[i as int] == e@);
            let hit = str_contains(e.name.as_str(), pattern);
            if hit {
                raw.push(copy_text(&e.name));
                assert(texts(raw@) =~= before.push(e.name@));
            } else {
                assert(texts(raw@) == before);
            }
            assert(es[i as int].name == e.name@);
            assert forall|n: Seq<char>| #[trigger] texts(raw@).contains(n) <==>
                (exists|j: int| 0 <= j < i + 1 && #[trigger] es[j].name == n && contains(n, pattern@)) by {
                if texts(raw@).contains(n) && !before.contains(n) {
                    assert(texts(raw@)[texts(raw@).len() - 1] == n);
                }
                if texts(raw@).contains(n) && before.contains(n) {
                    let k = choose|k: int| 0 <= k < before.len() && before[k] == n;
                    assert(before[k] == n);
                }
                if before.contains(n) {
                    let k = choose|k: int| 0 <= k < before.len() && before[k] == n;
                    assert(texts(raw@)[k] == n);
                }
                if exists|j: int| 0 <= j < i + 1 && #[trigger] es[j].name == n && contains(n, pattern@) {
                    let j = choose|j: int| 0 <= j < i + 1 && #[trigger] es[j].name == n && contains(n, pattern@);
                    if j == i {
                        assert(texts(raw@)[texts(raw@).len() - 1] == n);
                    }
                }
            }
            i = i + 1;
        }
        let r = intersect(&raw, &raw);
        assert(texts(r@).to_set() =~= spec_by_name(es, pattern@));
        r
    }

    /// The names of the theorems whose documentation has a word, each once
    fn names_with_word(&self, w: &String) -> (r: Vec<String>)
        ensures
            texts(r@).to_set() == spec_with_word(self.spec_entries(), w@),
            texts(r@).no_duplicates(),
    {
        let ghost es = self.spec_entries();
        let mut raw: Vec<String> = Vec::new();
        let mut i: usize = 0;
        while i < self.entries.len()
            invariant
                i <= self.entries@.len(),
                es == self.spec_entries(),
                forall|n: Seq<char>| #[trigger] texts(raw@).contains(n) <==>
                    (exists|j: int| 0 <= j < i && #[trigger] es[j].name == n && es[j].words.contains(w@)),
            decreases self.entries@.len() - i,
        {
            let ghost before = texts(raw@);
            let e = &self.entries[i];
            assert(es[i as int] == e@);
            let hit = has_text(&e.words, w);
            if hit {
                raw.push(copy_text(&e.name));
                assert(texts(raw@) =~= before.push(e.name@));
            } else {
                assert(texts(raw@) == before);
            }
            assert(es[i as int].name == e.name@ && es[i as int].words == texts(e.words@));
            assert forall|n: Seq<char>| #[trigger] texts(raw@).contains(n) <==>
                (exists|j: int| 0 <= j < i + 1 && #[trigger] es[j].name == n && es[j].words.contains(w@)) by {
                if texts(raw@).contains(n) && !before.contains(n) {
                    assert(texts(raw@)[texts(raw@).len() - 1] == n);
                }
                if texts(raw@).contains(n) && before.contains(n) {
                    let k = choose|k: int| 0 <= k < before.len() && before[k] == n;
                    assert(before[k] == n);
                }
                if before.contains(n) {
                    let k = choose|k: int| 0 <= k < before.len() && before[k] == n;
                    assert(texts(raw@)[k] == n);
                }
                if exists|j: int| 0 <= j < i + 1 && #[trigger] es[j].name == n && es[j].words.contains(w@) {
                    let j = choose|j: int| 0 <= j < i + 1 && #[trigger] es[j].name == n && es[j].words.contains(w@);
                    if j == i {
                        assert(texts(raw@)[texts(raw@).len() - 1] == n);
                    }
                }
            }
            i = i + 1;
        }
        let r = intersect(&raw, &raw);
        assert(texts(r@).to_set() =~= spec_with_word(es, w@));
        r
    }

    /// The names of the theorems whose documentation has every lowercase
    /// word of a query, each once; none for a query without words
    pub fn search_documentation(&self, query: &str) -> (r: Vec<String>)
        ensures
            texts(r@).to_set() == spec_by_documentation(self.spec_entries(), query@),
            texts(r@).no_duplicates(),
    {
        let ghost es = self.spec_entries();
        let raw = split_words(query);
        let mut words: Vec<String> = Vec::new();
        let mut k: usize = 0;
        while k < raw.len()
            invariant
                k <= raw@.len(),
                texts(raw@) == spec_words(query@),
                words@.len() == k,
                forall|j: int| 0 <= j < k ==> #[trigger] words@[j]@ == spec_lowercase(raw@[j]@),
            decreases raw@.len() - k,
        {
            words.push(lowercase(raw[k].as_str()));
            k = k + 1;
        }
        let ghost ws = lower_words(query@);
        assert(texts(words@) =~= ws) by {
            assert forall|j: int| 0 <= j < words@.len() implies texts(words@)[j] == ws[j] by {
                assert(texts(raw@)[j] == raw@[j]@);
            }
        }
        if words.len() == 0 {
            let r: Vec<String> = Vec::new();
            assert(texts(r@).to_set() =~= Set::<Seq<char>>::empty());
            return r;
        }
        let mut acc = self.names_with_word(&words[0]);
        let mut k: usize = 1;
        assert(texts(words@)[0] == words@[0]@);
        while k < words.len()
            invariant
                1 <= k <= words@.len(),
                texts(words@) == ws,
                es == self.spec_entries(),
                forall|n: Seq<char>| #[trigger] texts(acc@).to_set().contains(n) <==>
                    (forall|j: int| 0 <= j < k ==> #[trigger] spec_with_word(es, ws[j]).contains(n)),
                texts(acc@).no_duplicates(),
            decreases words@.len() - k,
        {
            assert(texts(words@)[k as int] == words@[k as int]@);
            let next = self.names_with_word(&words[k]);
            let ghost old_acc = texts(acc@).to_set();
            acc = intersect(&acc, &next);
            assert forall|n: Seq<char>| #[trigger] texts(acc@).to_set().contains(n) <==>
                (forall|j: int| 0 <= j < k + 1 ==> #[trigger] spec_with_word(es, ws[j]).contains(n)) by {
                if forall|j: int| 0 <= j < k + 1 ==> #[trigger] spec_with_word(es, ws[j]).contains(n) {
                    assert forall|j: int| 0 <= j < k implies #[trigger] spec_with_word(es, ws[j]).contains(n) by {
                        assert(0 <= j < k + 1);
                    }
                    assert(spec_with_word(es, ws[k as int]).contains(n));
                }
            }
            k = k + 1;
        }
        assert(texts(acc@).to_set() =~= spec_by_documentation(es, query@));
        acc
    }

    /// The names of a category's theorems, in the order added
    pub fn search_by_category(&self, category: TheoremCategory) -> (r: Vec<String>)
        ensures
            texts(r@) == spec_by_category(self.spec_entries(), category),
    {
        let mut r: Vec<String> = Vec::new();
        let mut i: usize = 0;
        while i < self.entries.len()
            invariant
                i <= self.entries@.len(),
                texts(r@) == spec_by_category(entry_views(self.entries@.take(i as int)), category),
            decreases self.entries@.len() - i,
        {
            let ghost before = texts(r@);
            if self.entries[i].category == category {
                r.push(copy_text(&self.entries[i].name));
                assert(texts(r@) =~= before.push(self.entries@[i as int]@.name));
            }
            proof {
                assert(entry_views(self.entries@.take(i + 1)).drop_last() =~= entry_views(self.entries@.take(i as int)));
            }
            i = i + 1;
        }
        assert(self.entries@.take(self.entries@.len() as int) =~= self.entries@);
        r
    }

    /// The names of the theorems whose pattern has the head and arity of a
    /// goal's, in the order added
    pub fn search_by_type(&self, goal: &LeanTerm) -> (r: Vec<String>)
        requires
            spec_arity(goal@) <= usize::MAX,
        ensures
            texts(r@) == spec_by_pattern(self.spec_entries(), spec_head(goal@), spec_arity(goal@)),
    {
        let pattern = TypePattern::from_term(goal);
        let mut r: Vec<String> = Vec::new();
        let mut i: usize = 0;
        while i < self.entries.len()
            invariant
                i <= self.entries@.len(),
                pattern.head@ == spec_head(goal@),
                pattern.arity == spec_arity(goal@),
                texts(r@) == spec_by_pattern(entry_views(self.entries@.take(i as int)), spec_head(goal@), spec_arity(goal@)),
            decreases self.entries@.len() - i,
        {
            let ghost before = texts(r@);
            if self.entries[i].head == pattern.head && self.entries[i].arity == pattern.arity {
                r.push(copy_text(&self.entries[i].name));
                assert(texts(r@) =~= before.push(self.entries@[i as int]@.name));
            }
            proof {
                assert(entry_views(self.entries@.take(i + 1)).drop_last() =~= entry_views(self.entries@.take(i as int)));
            }
            i = i + 1;
        }
        assert(self.entries@.take(self.entries@.len() as int) =~= self.entries@);
        r
    }

    /// The names of the theorems with a free variable of a name, in the
    /// order added, once per such variable
    pub fn search_by_variable(&self, var_name: &str) -> (r: Vec<String>)
        ensures
            texts(r@) == spec_by_variable(self.spec_entries(), var_name@),
    {
        let key = String::from_str(var_name);
        let mut r: Vec<String> = Vec::new();
        let mut i: usize = 0;
        while i < self.entries.len()
            invariant
                i <= self.entries@.len(),
                key@ == var_name@,
                texts(r@) == spec_by_variable(entry_views(self.entries@.take(i as int)), var_name@),
            decreases self.entries@.len() - i,
        {
            let ghost before = texts(r@);
            let e = &self.entries[i];
            let ghost vs = texts(e.vars@);
            let mut j: usize = 0;
            while j < e.vars.len()
                invariant
                    j <= e.vars@.len(),
                    vs == texts(e.vars@),
                    key@ == var_name@,
                    texts(r@) == before + repeat_name(e.name@, vs.take(j as int).filter(is_text(var_name@)).len()),
                decreases e.vars@.len() - j,
            {
                let ghost mid = texts(r@);
                proof {
                    assert(vs.take(j + 1) =~= vs.take(j as int).push(vs[j as int]));
                    vs.take(j as int).lemma_filter_push(vs[j as int], is_text(var_name@));
                }
                if e.vars[j] == key {
                    r.push(copy_text(&e.name));
                    assert(texts(r@) =~= mid.push(e.name@));
                }
                j = j + 1;
                assert(texts(r@) =~= before + repeat_name(e.name@, vs.take(j as int).filter(is_text(var_name@)).len()));
            }
            proof {
                assert(vs.take(vs.len() as int) =~= vs);
                assert(entry_views(self.entries@.take(i + 1)).drop_last() =~= entry_views(self.entries@.take(i as int)));
                assert(entry_views(self.entries@.take(i + 1)).last() == e@);
            }
            i = i + 1;
        }
        assert(self.entries@.take(self.entries@.len() as int) =~= self.entries@);
        r
    }
}

// ---------------------------------------------------------------------
// The theorem database
// ---------------------------------------------------------------------

/// Errors of theorem database operations
#[derive(Debug)]
pub enum MathlibError {
    TheoremNotFound { name: String },
    DatabaseNotInitialized,
    SearchIndexCorrupted { reason: String },
}

/// The names of a list of theorems.
pub open spec fn theorem_names(s: Seq<MathlibTheorem>) -> Seq<Seq<char>> {
    s.map_values(|t: MathlibTheorem| t@.name)
}

/// The theorems of a list by name (names are distinct in the lists kept).
pub open spec fn theorem_map(s: Seq<MathlibTheorem>) -> Map<Seq<char>, TheoremView> {
    Map::new(
        |n: Seq<char>| exists|i: int| 0 <= i < s.len() && #[trigger] s[i]@.name == n,
        |n: Seq<char>| s[choose|i: int| 0 <= i < s.len() && #[trigger] s[i]@.name == n]@,
    )
}

/// The names a query finds among the index entries.
pub open spec fn query_names(es: Seq<EntryView>, q: SearchQuery) -> Set<Seq<char>>
    decreases q,
{
    match q {
        SearchQuery::ByName(p) => spec_by_name(es, p@),
        SearchQuery::ByCategory(c) => spec_by_category(es, c).to_set(),
        SearchQuery::ByType(g) => spec_by_pattern(es, spec_head(g@), spec_arity(g@)).to_set(),
        SearchQuery::ByVariable(v) => spec_by_variable(es, v@).to_set(),
        SearchQuery::ByDocumentation(d) => spec_by_documentation(es, d@),
        SearchQuery::Combined(qs) => combined_names(es, qs@),
    }
}

/// The names every one of a list of queries finds; none for no query.
pub open spec fn combined_names(es: Seq<EntryView>, qs: Seq<SearchQuery>) -> Set<Seq<char>>
    decreases qs,
{
    if qs.len() == 0 {
        Set::empty()
    } else if qs.len() == 1 {
        query_names(es, qs[0])
    } else {
        combined_names(es, qs.drop_last()).intersect(query_names(es, qs.last()))
    }
}

/// Whether a query, and every query it combines, asks for types whose
/// arity fits in a machine word.
pub open spec fn query_fits(q: SearchQuery) -> bool
    decreases q,
{
    match q {
        SearchQuery::ByType(g) => spec_arity(g@) <= usize::MAX,
        SearchQuery::Combined(qs) => queries_fit(qs@),
        _ => true,
    }
}

/// Whether every query of a list fits.
pub open spec fn queries_fit(qs: Seq<SearchQuery>) -> bool
    decreases qs,
{
    qs.len() == 0 || (queries_fit(qs.drop_last()) && query_fits(qs.last()))
}

proof fn lemma_queries_fit(qs: Seq<SearchQuery>, k: int)
    requires
        queries_fit(qs),
        0 <= k < qs.len(),
    ensures
        query_fits(qs[k]),
    decreases qs.len(),
{
    if k < qs.len() - 1 {
        lemma_queries_fit(qs.drop_last(), k);
        assert(qs.drop_last()[k] == qs[k]);
    }
}

/// The names of the index entries.
pub open spec fn entry_names(es: Seq<EntryView>) -> Set<Seq<char>> {
    Set::new(|n: Seq<char>| exists|i: int| 0 <= i < es.len() && #[trigger] es[i].name == n)
}

proof fn lemma_category_names(es: Seq<EntryView>, c: TheoremCategory)
    ensures
        spec_by_category(es, c).to_set().subset_of(entry_names(es)),
    decreases es.len(),
{
    if es.len() > 0 {
        lemma_category_names(es.drop_last(), c);
        assert forall|n: Seq<char>| spec_by_category(es, c).to_set().contains(n) implies entry_names(es).contains(n) by {
            let rest = spec_by_category(es.drop_last(), c);
            if rest.contains(n) {
                assert(rest.to_set().contains(n));
                let i = choose|i: int| 0 <= i < es.drop_last().len() && #[trigger] es.drop_last()[i].name == n;
                assert(es[i].name == n);
            } else {
                assert(es[es.len() - 1].name == n);
            }
        }
    }
}

proof fn lemma_pattern_names(es: Seq<EntryView>, head: Seq<char>, arity: nat)
    ensures
        spec_by_pattern(es, head, arity).to_set().subset_of(entry_names(es)),
    decreases es.len(),
{
    if es.len() > 0 {
        lemma_pattern_names(es.drop_last(), head, arity);
        assert forall|n: Seq<char>| spec_by_pattern(es, head, arity).to_set().contains(n) implies entry_names(es).contains(n) by {
            let rest = spec_by_pattern(es.drop_last(), head, arity);
            if rest.contains(n) {
                assert(rest.to_set().contains(n));
                let i = choose|i: int| 0 <= i < es.drop_last().len() && #[trigger] es.drop_last()[i].name == n;
                assert(es[i].name == n);
            } else {
                assert(es[es.len() - 1].name == n);
            }
        }
    }
}

proof fn lemma_variable_names(es: Seq<EntryView>, var: Seq<char>)
    ensures
        spec_by_variable(es, var).to_set().subset_of(entry_names(es)),
    decreases es.len(),
{
    if es.len() > 0 {
        lemma_variable_names(es.drop_last(), var);
        assert forall|n: Seq<char>| spec_by_variable(es, var).to_set().contains(n) implies entry_names(es).contains(n) by {
            let e = es.last();
            let rest = spec_by_variable(es.drop_last(), var);
            let more = repeat_name(e.name, e.vars.filter(is_text(var)).len());
            assert(spec_by_variable(es, var) == rest + more);
            assert(spec_by_variable(es, var).contains(n));
            let k = choose|k: int| 0 <= k < (rest + more).len() && (rest + more)[k] == n;
            if k < rest.len() {
                assert((rest + more)[k] == rest[k]);
                assert(rest.to_set().contains(n));
                let i = choose|i: int| 0 <= i < es.drop_last().len() && #[trigger] es.drop_last()[i].name == n;
                assert(es[i].name == n);
            } else {
                assert(more[k - rest.len()] == n);
                assert(es[es.len() - 1].name == n);
            }
        }
    }
}

/// Every name a query finds is an indexed theorem's.
pub proof fn lemma_query_names(es: Seq<EntryView>, q: SearchQuery)
    ensures
        query_names(es, q).subset_of(entry_names(es)),
    decreases q,
{
    match q {
        SearchQuery::ByCategory(c) => lemma_category_names(es, c),
        SearchQuery::ByType(g) => lemma_pattern_names(es, spec_head(g@), spec_arity(g@)),
        SearchQuery::ByVariable(v) => lemma_variable_names(es, v@),
        SearchQuery::ByDocumentation(d) => {
            let ws = lower_words(d@);
            if ws.len() > 0 {
                assert forall|n: Seq<char>| query_names(es, q).contains(n) implies entry_names(es).contains(n) by {
                    assert(spec_with_word(es, ws[0]).contains(n));
                }
            }
        },
        SearchQuery::Combined(qs) => lemma_combined_names(es, qs@),
        _ => {},
    }
}

proof fn lemma_combined_names(es: Seq<EntryView>, qs: Seq<SearchQuery>)
    ensures
        combined_names(es, qs).subset_of(entry_names(es)),
    decreases qs,
{
    if qs.len() == 1 {
        lemma_query_names(es, qs[0]);
    } else if qs.len() > 1 {
        lemma_combined_names(es, qs.drop_last());
    }
}

/// A list of theorems with distinct names maps as many names as it has
/// theorems.
proof fn lemma_theorems_len(s: Seq<MathlibTheorem>)
    requires
        theorem_names(s).no_duplicates(),
    ensures
        theorem_map(s).len() == s.len(),
{
    theorem_names(s).unique_seq_to_set();
    assert(theorem_map(s).dom() =~= theorem_names(s).to_set()) by {
        assert forall|n: Seq<char>| theorem_map(s).dom().contains(n) implies theorem_names(s).to_set().contains(n) by {
            let i = choose|i: int| 0 <= i < s.len() && #[trigger] s[i]@.name == n;
            assert(theorem_names(s)[i] == n);
        }
        assert forall|n: Seq<char>| theorem_names(s).to_set().contains(n) implies theorem_map(s).dom().contains(n) by {
            let i = choose|i: int| 0 <= i < theorem_names(s).len() && theorem_names(s)[i] == n;
            assert(s[i]@.name == n);
        }
    }
}

/// The sum of the complexity scores of a list of theorems.
pub open spec fn complexity_total(s: Seq<MathlibTheorem>) -> nat
    decreases s.len(),
{
    if s.len() == 0 { 0 } else { (complexity_total(s.drop_last()) + s.last()@.complexity) as nat }
}

proof fn lemma_total_prefix(s: Seq<MathlibTheorem>, k: int)
    requires
        0 <= k <= s.len(),
    ensures
        complexity_total(s.take(k)) <= complexity_total(s),
    decreases s.len(),
{
    if k < s.len() {
        assert(s.drop_last().take(k) =~= s.take(k));
        lemma_total_prefix(s.drop_last(), k);
    } else {
        assert(s.take(k) =~= s);
    }
}

/// The position of a category in the list `all` gives.
pub open spec fn category_position(c: TheoremCategory) -> int {
    match c {
        TheoremCategory::Logic => 0,
        TheoremCategory::SetTheory => 1,
        TheoremCategory::TypeTheory => 2,
        TheoremCategory::GroupTheory => 3,
        TheoremCategory::RingTheory => 4,
        TheoremCategory::FieldTheory => 5,
        TheoremCategory::LinearAlgebra => 6,
        TheoremCategory::RealAnalysis => 7,
        TheoremCategory::ComplexAnalysis => 8,
        TheoremCategory::FunctionalAnalysis => 9,
        TheoremCategory::Topology => 10,
        TheoremCategory::Geometry => 11,
        TheoremCategory::DifferentialGeometry => 12,
        TheoremCategory::AlgebraicGeometry => 13,
        TheoremCategory::NumberTheory => 14,
        TheoremCategory::AlgebraicNumberTheory => 15,
        TheoremCategory::Combinatorics => 16,
        TheoremCategory::GraphTheory => 17,
        TheoremCategory::CategoryTheory => 18,
        TheoremCategory::HomologicalAlgebra => 19,
        TheoremCategory::MeasureTheory => 20,
        TheoremCategory::ProbabilityTheory => 21,
        TheoremCategory::ProofTheory => 22,
        TheoremCategory::ModelTheory => 23,
        TheoremCategory::Unknown => 24,
    }
}

/// Main theorem database
pub struct TheoremDatabase {
    theorems: Vec<MathlibTheorem>,
    search_index: SearchIndex,
    metrics: DatabaseMetrics,
}

/// Counts over the database: theorems, theorems added per category (for
/// the categories with any), the sum of the complexity scores, and the
/// query counters (averages and rates are left to the caller).
pub struct DatabaseStats {
    pub total_theorems: usize,
    pub category_distribution: Vec<(TheoremCategory, usize)>,
    pub complexity_sum: u32,
    pub total_queries: u64,
    pub cache_hits: u64,
}

impl TheoremDatabase {
    /// The theorems by name.
    pub closed spec fn spec_theorems(&self) -> Map<Seq<char>, TheoremView> {
        theorem_map(self.theorems@)
    }

    /// The index entries, in the order added.
    pub closed spec fn spec_index(&self) -> Seq<EntryView> {
        self.search_index.spec_entries()
    }

    /// The query counters.
    pub closed spec fn spec_metrics(&self) -> DatabaseMetrics {
        self.metrics
    }

    /// The sum of the theorems' complexity scores.
    pub closed spec fn spec_complexity_total(&self) -> nat {
        complexity_total(self.theorems@)
    }

    /// Names are distinct among the theorems, and every indexed name is a
    /// theorem's.
    pub closed spec fn wf(&self) -> bool {
        &&& theorem_names(self.theorems@).no_duplicates()
        &&& forall|i: int| 0 <= i < self.spec_index().len()
            ==> #[trigger] self.spec_theorems().contains_key(self.spec_index()[i].name)
    }

    /// An empty database
    pub fn new() -> (r: Self)
        ensures
            r.wf(),
            r.spec_theorems() == Map::<Seq<char>, TheoremView>::empty(),
            r.spec_index() == Seq::<EntryView>::empty(),
            r.spec_metrics().total_queries == 0,
            r.spec_metrics().cache_hits == 0,
    {
        let r = TheoremDatabase { theorems: Vec::new(), search_index: SearchIndex::new(), metrics: DatabaseMetrics::default() };
        assert(r.spec_theorems() =~= Map::<Seq<char>, TheoremView>::empty());
        r
    }

    /// The position of the theorem with a name, if any.
    fn position(&self, name: &str) -> (r: Option<usize>)
        ensures
            r matches Some(i) ==> i < self.theorems@.len() && self.theorems@[i as int]@.name == name@,
            r is None ==> !self.spec_theorems().contains_key(name@),
    {
        let key = String::from_str(name);
        let mut i: usize = 0;
        while i < self.theorems.len()
            invariant
                i <= self.theorems@.len(),
                key@ == name@,
                forall|j: int| 0 <= j < i ==> #[trigger] self.theorems@[j]@.name != name@,
            decreases self.theorems@.len() - i,
        {
            if self.theorems[i].name == key {
                return Some(i);
            }
            i = i + 1;
        }
        None
    }

    /// The theorem stored at a position is the one its name maps to.
    proof fn lemma_at(&self, i: int)
        requires
            self.wf(),
            0 <= i < self.theorems@.len(),
        ensures
            self.spec_theorems().contains_key(self.theorems@[i]@.name),
            self.spec_theorems()[self.theorems@[i]@.name] == self.theorems@[i]@,
    {
        let s = self.theorems@;
        let n = s[i]@.name;
        let k = choose|k: int| 0 <= k < s.len() && #[trigger] s[k]@.name == n;
        if k != i {
            assert(theorem_names(s)[k] == theorem_names(s)[i]);
        }
    }

    /// Add a theorem: it is indexed, and it becomes the theorem of its
    /// name (replacing one of the same name)
    pub fn add_theorem(&mut self, theorem: MathlibTheorem) -> (r: Result<(), MathlibError>)
        requires
            old(self).wf(),
        ensures
            r is Ok,
            final(self).wf(),
            final(self).spec_theorems() == old(self).spec_theorems().insert(theorem@.name, theorem@),
            final(self).spec_index() == old(self).spec_index().push(entry_of(theorem@)),
            final(self).spec_metrics() == old(self).spec_metrics(),
    {
        self.search_index.add_theorem(&theorem);
        let ghost old_s = self.theorems@;
        let ghost tv = theorem@;
        match self.position(theorem.name.as_str()) {
            Some(i) => {
                self.theorems.set(i, theorem);
                proof {
                    let s = self.theorems@;
                    assert(theorem_names(s) =~= theorem_names(old_s).update(i as int, tv.name));
                    assert(theorem_names(old_s)[i as int] == tv.name);
                    assert(theorem_names(s) =~= theorem_names(old_s));
                    assert forall|n: Seq<char>| #[trigger] theorem_map(s).contains_key(n)
                        <==> theorem_map(old_s).insert(tv.name, tv).contains_key(n) by {
                        if theorem_map(old_s).contains_key(n) {
                            let k = choose|k: int| 0 <= k < old_s.len() && #[trigger] old_s[k]@.name == n;
                            assert(theorem_names(s)[k] == n);
                            assert(s[k]@.name == n);
                        }
                        if theorem_map(s).contains_key(n) {
                            let k = choose|k: int| 0 <= k < s.len() && #[trigger] s[k]@.name == n;
                            assert(theorem_names(old_s)[k] == n);
                            assert(old_s[k]@.name == n);
                        }
                        assert(s[i as int]@.name == tv.name);
                    }
                    assert forall|n: Seq<char>| #[trigger] theorem_map(s).contains_key(n)
                        implies theorem_map(s)[n] == theorem_map(old_s).insert(tv.name, tv)[n] by {
                        let k = choose|k: int| 0 <= k < s.len() && #[trigger] s[k]@.name == n;
                        if k != i {
                            assert(old_s[k]@.name == n);
                            let k2 = choose|k2: int| 0 <= k2 < old_s.len() && #[trigger] old_s[k2]@.name == n;
                            if k2 != k {
                                assert(theorem_names(old_s)[k2] == theorem_names(old_s)[k]);
                            }
                            assert(n != tv.name) by {
                                if n == tv.name {
                                    assert(theorem_names(old_s)[k] == theorem_names(old_s)[i as int]);
                                }
                            }
                        }
                    }
                    assert(theorem_map(s) =~= theorem_map(old_s).insert(tv.name, tv));
                }
            },
            None => {
                self.theorems.push(theorem);
                proof {
                    let s = self.theorems@;
                    assert(theorem_names(s) =~= theorem_names(old_s).push(tv.name));
                    assert(!theorem_names(old_s).contains(tv.name)) by {
                        if theorem_names(old_s).contains(tv.name) {
                            let k = choose|k: int| 0 <= k < theorem_names(old_s).len() && theorem_names(old_s)[k] == tv.name;
                            assert(old_s[k]@.name == tv.name);
                        }
                    }
                    assert forall|n: Seq<char>| #[trigger] theorem_map(s).contains_key(n)
                        <==> theorem_map(old_s).insert(tv.name, tv).contains_key(n) by {
                        if theorem_map(old_s).contains_key(n) {
                            let k = choose|k: int| 0 <= k < old_s.len() && #[trigger] old_s[k]@.name == n;
                            assert(s[k]@.name == n);
                        }
                        if theorem_map(s).contains_key(n) && n != tv.name {
                            let k = choose|k: int| 0 <= k < s.len() && #[trigger] s[k]@.name == n;
                            assert(old_s[k]@.name == n);
                        }
                        assert(s[s.len() - 1]@.name == tv.name);
                    }
                    assert forall|n: Seq<char>| #[trigger] theorem_map(s).contains_key(n)
                        implies theorem_map(s)[n] == theorem_map(old_s).insert(tv.name, tv)[n] by {
                        let k = choose|k: int| 0 <= k < s.len() && #[trigger] s[k]@.name == n;
                        if k < old_s.len() {
                            assert(old_s[k]@.name == n);
                            assert(theorem_names(old_s)[k] == n);
                            let k2 = choose|k2: int| 0 <= k2 < old_s.len() && #[trigger] old_s[k2]@.name == n;
                            if k2 != k {
                                assert(theorem_names(old_s)[k2] == theorem_names(old_s)[k]);
                            }
                        } else {
                            assert(k == s.len() - 1);
                            let k2 = choose|k2: int| 0 <= k2 < s.len() && #[trigger] s[k2]@.name == n;
                            if k2 < old_s.len() {
                                assert(theorem_names(old_s)[k2] == tv.name);
                            }
                        }
                    }
                    assert(theorem_map(s) =~= theorem_map(old_s).insert(tv.name, tv));
                }
            },
        }
        proof {
            assert forall|i: int| 0 <= i < self.spec_index().len()
                implies #[trigger] self.spec_theorems().contains_key(self.spec_index()[i].name) by {
                if i < old(self).spec_index().len() {
                    assert(old(self).spec_theorems().contains_key(old(self).spec_index()[i].name));
                }
            }
        }
        Ok(())
    }

    /// Look a theorem up by name, counting the query with the time it took
    pub fn get_theorem(&mut self, name: &str) -> (r: Option<MathlibTheorem>)
        requires
            old(self).wf(),
            old(self).spec_metrics().total_queries < u64::MAX,
        ensures
            final(self).wf(),
            final(self).spec_theorems() == old(self).spec_theorems(),
            final(self).spec_index() == old(self).spec_index(),
            r is Some <==> old(self).spec_theorems().contains_key(name@),
            r matches Some(t) ==> t@ == old(self).spec_theorems()[name@],
            final(self).spec_metrics().total_queries == old(self).spec_metrics().total_queries + 1,
            final(self).spec_metrics().cache_hits == old(self).spec_metrics().cache_hits,
            final(self).spec_metrics().theorem_applications == old(self).spec_metrics().theorem_applications,
            exists|ms: u64| final(self).spec_metrics().avg_query_time_ms
                == #[trigger] old(self).spec_metrics().avg_query_time_ms.wrapping_mul(old(self).spec_metrics().total_queries)
                    .wrapping_add(ms) / (old(self).spec_metrics().total_queries + 1) as u64,
    {
        let start = instant_now();
        let result = self.lookup(name);
        let elapsed = instant_elapsed(&start);
        let millis = duration_as_millis(&elapsed) as u64;
        self.metrics.record_query(millis);
        result
    }

    /// Look a theorem up by name.
    fn lookup(&self, name: &str) -> (r: Option<MathlibTheorem>)
        requires
            self.wf(),
        ensures
            r is Some <==> self.spec_theorems().contains_key(name@),
            r matches Some(t) ==> t@ == self.spec_theorems()[name@],
    {
        match self.position(name) {
            Some(i) => {
                proof { self.lemma_at(i as int); }
                Some(self.theorems[i].copy())
            },
            None => None,
        }
    }

    /// The names a query finds: in the order added for a category, a
    /// pattern or a variable; each once, in no promised order, for a name,
    /// documentation or combined search
    pub fn search_names(&self, query: &SearchQuery) -> (r: Vec<String>)
        requires
            self.wf(),
            query_fits(*query),
        ensures
            texts(r@).to_set() == query_names(self.spec_index(), *query),
            *query matches SearchQuery::ByCategory(c) ==> texts(r@) == spec_by_category(self.spec_index(), c),
            *query matches SearchQuery::ByType(g) ==> texts(r@) == spec_by_pattern(self.spec_index(), spec_head(g@), spec_arity(g@)),
            *query matches SearchQuery::ByVariable(v) ==> texts(r@) == spec_by_variable(self.spec_index(), v@),
            (*query is ByName || *query is ByDocumentation || *query is Combined) ==> texts(r@).no_duplicates(),
        decreases query,
    {
        match query {
            SearchQuery::ByName(pattern) => self.search_index.search_by_name(pattern.as_str()),
            SearchQuery::ByCategory(category) => self.search_index.search_by_category(*category),
            SearchQuery::ByType(goal) => self.search_index.search_by_type(goal),
            SearchQuery::ByVariable(var) => self.search_index.search_by_variable(var.as_str()),
            SearchQuery::ByDocumentation(text) => self.search_index.search_documentation(text.as_str()),
            SearchQuery::Combined(queries) => {
                let ghost es = self.spec_index();
                if queries.len() == 0 {
                    let r: Vec<String> = Vec::new();
                    assert(texts(r@).to_set() =~= Set::<Seq<char>>::empty());
                    return r;
                }
                proof { lemma_queries_fit(queries@, 0); }
                let first = self.search_names(&queries[0]);
                let mut acc = intersect(&first, &first);
                assert(queries@.take(1) =~= seq![queries@[0]]);
                let mut k: usize = 1;
                while k < queries.len()
                    invariant
                        1 <= k <= queries@.len(),
                        es == self.spec_index(),
                        self.wf(),
                        query_fits(*query),
                        *query == SearchQuery::Combined(*queries),
                        texts(acc@).to_set() == combined_names(es, queries@.take(k as int)),
                        texts(acc@).no_duplicates(),
                    decreases queries@.len() - k,
                {
                    proof {
                        lemma_queries_fit(queries@, k as int);
                        assert(decreases_to!(*query => *queries));
                        assert(decreases_to!(*queries => queries@));
                        assert(decreases_to!(queries@ => queries@[k as int]));
                    }
                    let next = self.search_names(&queries[k]);
                    acc = intersect(&acc, &next);
                    proof {
                        let t = queries@.take(k + 1);
                        assert(t.drop_last() =~= queries@.take(k as int));
                        assert(t.last() == queries@[k as int]);
                    }
                    k = k + 1;
                }
                assert(queries@.take(queries@.len() as int) =~= queries@);
                acc
            },
        }
    }

    /// The theorems a query finds, by the names `search_names` gives
    pub fn search(&self, query: &SearchQuery) -> (r: Vec<MathlibTheorem>)
        requires
            self.wf(),
            query_fits(*query),
        ensures
            theorem_names(r@).to_set() == query_names(self.spec_index(), *query),
            forall|i: int| 0 <= i < r@.len() ==> self.spec_theorems().contains_key(#[trigger] r@[i]@.name)
                && r@[i]@ == self.spec_theorems()[r@[i]@.name],
            *query matches SearchQuery::ByCategory(c) ==> theorem_names(r@) == spec_by_category(self.spec_index(), c),
            *query matches SearchQuery::ByType(g) ==> theorem_names(r@) == spec_by_pattern(self.spec_index(), spec_head(g@), spec_arity(g@)),
            *query matches SearchQuery::ByVariable(v) ==> theorem_names(r@) == spec_by_variable(self.spec_index(), v@),
            (*query is ByName || *query is ByDocumentation || *query is Combined) ==> theorem_names(r@).no_duplicates(),
    {
        let names = self.search_names(query);
        proof {
            lemma_query_names(self.spec_index(), *query);
        }
        let mut r: Vec<MathlibTheorem> = Vec::new();
        let mut i: usize = 0;
        while i < names.len()
            invariant
                i <= names@.len(),
                self.wf(),
                texts(names@).to_set() == query_names(self.spec_index(), *query),
                query_names(self.spec_index(), *query).subset_of(entry_names(self.spec_index())),
                theorem_names(r@) == texts(names@).take(i as int),
                forall|j: int| 0 <= j < r@.len() ==> self.spec_theorems().contains_key(#[trigger] r@[j]@.name)
                    && r@[j]@ == self.spec_theorems()[r@[j]@.name],
            decreases names@.len() - i,
        {
            assert(texts(names@)[i as int] == names@[i as int]@);
            assert(texts(names@).to_set().contains(names@[i as int]@));
            let ghost n = names@[i as int]@;
            proof {
                assert(entry_names(self.spec_index()).contains(n));
                let k = choose|k: int| 0 <= k < self.spec_index().len() && #[trigger] self.spec_index()[k].name == n;
                assert(self.spec_theorems().contains_key(self.spec_index()[k].name));
            }
            match self.lookup(names[i].as_str()) {
                Some(t) => {
                    let ghost before = r@;
                    r.push(t);
                    assert(theorem_names(r@) =~= theorem_names(before).push(n));
                    assert(texts(names@).take(i + 1) =~= texts(names@).take(i as int).push(n));
                },
                None => {},
            }
            i = i + 1;
        }
        assert(texts(names@).take(names@.len() as int) =~= texts(names@));
        r
    }

    /// The theorems whose pattern has the goal's head and arity, in the
    /// order added, that apply to the goal
    pub fn find_applicable(&self, goal: &LeanTerm) -> (r: Vec<MathlibTheorem>)
        requires
            self.wf(),
            spec_arity(goal@) <= usize::MAX,
        ensures
            r@.map_values(|t: MathlibTheorem| t@) == spec_by_pattern(self.spec_index(), spec_head(goal@), spec_arity(goal@))
                .map_values(|n: Seq<char>| self.spec_theorems()[n]).filter(|t: TheoremView| spec_applicable(t, goal@)),
    {
        let query = SearchQuery::ByType(goal.copy());
        let found = self.search(&query);
        let ghost all = found@.map_values(|t: MathlibTheorem| t@);
        assert(all =~= spec_by_pattern(self.spec_index(), spec_head(goal@), spec_arity(goal@))
            .map_values(|n: Seq<char>| self.spec_theorems()[n])) by {
            assert forall|j: int| 0 <= j < all.len() implies all[j] == spec_by_pattern(self.spec_index(), spec_head(goal@), spec_arity(goal@))
                .map_values(|n: Seq<char>| self.spec_theorems()[n])[j] by {
                assert(theorem_names(found@)[j] == found@[j]@.name);
            }
        }
        let mut r: Vec<MathlibTheorem> = Vec::new();
        let mut i: usize = 0;
        while i < found.len()
            invariant
                i <= found@.len(),
                all == found@.map_values(|t: MathlibTheorem| t@),
                spec_arity(goal@) <= usize::MAX,
                r@.map_values(|t: MathlibTheorem| t@) == all.take(i as int).filter(|t: TheoremView| spec_applicable(t, goal@)),
            decreases found@.len() - i,
        {
            proof {
                assert(all.take(i + 1) =~= all.take(i as int).push(all[i as int]));
                all.take(i as int).lemma_filter_push(all[i as int], |t: TheoremView| spec_applicable(t, goal@));
            }
            let ghost before = r@.map_values(|t: MathlibTheorem| t@);
            if found[i].is_applicable_to(goal) {
                r.push(found[i].copy());
                assert(r@.map_values(|t: MathlibTheorem| t@) =~= before.push(all[i as int]));
            }
            i = i + 1;
        }
        assert(all.take(all.len() as int) =~= all);
        r
    }

    /// Counts over the database
    pub fn stats(&self) -> (r: DatabaseStats)
        requires
            self.wf(),
            self.spec_complexity_total() <= u32::MAX,
        ensures
            r.total_theorems == self.spec_theorems().len(),
            r.complexity_sum == self.spec_complexity_total(),
            forall|i: int| 0 <= i < r.category_distribution@.len() ==>
                #[trigger] r.category_distribution@[i].1 == spec_by_category(self.spec_index(), r.category_distribution@[i].0).len()
                && r.category_distribution@[i].1 > 0,
            forall|c: TheoremCategory| spec_by_category(self.spec_index(), c).len() > 0 ==>
                exists|i: int| 0 <= i < r.category_distribution@.len() && #[trigger] r.category_distribution@[i].0 == c,
            r.total_queries == self.spec_metrics().total_queries,
            r.cache_hits == self.spec_metrics().cache_hits,
    {
        let mut sum: u32 = 0;
        let mut j: usize = 0;
        while j < self.theorems.len()
            invariant
                j <= self.theorems@.len(),
                complexity_total(self.theorems@) <= u32::MAX,
                sum == complexity_total(self.theorems@.take(j as int)),
            decreases self.theorems@.len() - j,
        {
            proof {
                assert(self.theorems@.take(j + 1).drop_last() =~= self.theorems@.take(j as int));
                lemma_total_prefix(self.theorems@, j + 1);
            }
            sum = sum + self.theorems[j].complexity;
            j = j + 1;
        }
        assert(self.theorems@.take(self.theorems@.len() as int) =~= self.theorems@);
        let all = TheoremCategory::all();
        assert forall|c: TheoremCategory| all@.contains(c) by {
            assert(all@[category_position(c)] == c);
        }
        let mut dist: Vec<(TheoremCategory, usize)> = Vec::new();
        let mut i: usize = 0;
        while i < all.len()
            invariant
                i <= all@.len(),
                forall|c: TheoremCategory| all@.contains(c),
                forall|j: int| 0 <= j < dist@.len() ==>
                    #[trigger] dist@[j].1 == spec_by_category(self.spec_index(), dist@[j].0).len() && dist@[j].1 > 0,
                forall|j: int| 0 <= j < i && spec_by_category(self.spec_index(), #[trigger] all@[j]).len() > 0 ==>
                    exists|k: int| 0 <= k < dist@.len() && #[trigger] dist@[k].0 == all@[j],
            decreases all@.len() - i,
        {
            let c = all[i];
            let names = self.search_index.search_by_category(c);
            assert(texts(names@).len() == names@.len());
            if names.len() > 0 {
                let ghost before = dist@;
                dist.push((c, names.len()));
                assert forall|j: int| 0 <= j < i && spec_by_category(self.spec_index(), #[trigger] all@[j]).len() > 0 implies
                    exists|k: int| 0 <= k < dist@.len() && #[trigger] dist@[k].0 == all@[j] by {
                    let k = choose|k: int| 0 <= k < before.len() && #[trigger] before[k].0 == all@[j];
                    assert(dist@[k] == before[k]);
                }
                assert(dist@[dist@.len() - 1].0 == all@[i as int]);
            }
            i = i + 1;
        }
        proof {
            assert forall|c: TheoremCategory| spec_by_category(self.spec_index(), c).len() > 0 implies
                exists|k: int| 0 <= k < dist@.len() && #[trigger] dist@[k].0 == c by {
                assert(all@.contains(c));
                let j = choose|j: int| 0 <= j < all@.len() && all@[j] == c;
                assert(spec_by_category(self.spec_index(), all@[j]).len() > 0);
            }
            lemma_theorems_len(self.theorems@);
        }
        let r = DatabaseStats {
            total_theorems: self.theorems.len(),
            category_distribution: dist,
            complexity_sum: sum,
            total_queries: self.metrics.total_queries,
            cache_hits: self.metrics.cache_hits,
        };
        assert(r.category_distribution@ == dist@);
        assert forall|c: TheoremCategory| spec_by_category(self.spec_index(), c).len() > 0 implies
            exists|k: int| 0 <= k < r.category_distribution@.len() && #[trigger] r.category_distribution@[k].0 == c by {
            assert(exists|k: int| 0 <= k < dist@.len() && #[trigger] dist@[k].0 == c);
            let k = choose|k: int| 0 <= k < dist@.len() && #[trigger] dist@[k].0 == c;
            assert(r.category_distribution@[k].0 == c);
        }
        r
    }
}

} // verus!
