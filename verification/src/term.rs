//! The core term syntax: literals, patterns, terms, scopes and telescopes,
//! with binding, substitution and alpha-equivalence.
//!
//! Subterms are shared through reference-counted nodes (`RcTerm`,
//! `RcPattern`), so cloning a term is cheap and never copies the tree.

use vstd::prelude::*;
use std::rc::Rc;
use crate::universe::{Label, Level, LevelShift};
use crate::var::{Binder, FreeVar, FreeVarView, Var, VarView};

verus! {

/// Literals.
///
/// Floating-point literals carry the IEEE 754 bit pattern of the number; the
/// core never computes with them, it only stores and compares them.
#[derive(Debug, PartialEq, Eq)]
pub enum Literal {
    Bool(bool),
    String(String),
    Char(char),
    U8(u8),
    U16(u16),
    U32(u32),
    U64(u64),
    I8(i8),
    I16(i16),
    I32(i32),
    I64(i64),
    F32(u32),
    F64(u64),
}

/// The mathematical value of a `Literal`.
pub enum LiteralView {
    Bool(bool),
    String(Seq<char>),
    Char(char),
    U8(u8),
    U16(u16),
    U32(u32),
    U64(u64),
    I8(i8),
    I16(i16),
    I32(i32),
    I64(i64),
    F32(u32),
    F64(u64),
}

pub open spec fn literal_view(l: Literal) -> LiteralView {
    match l {
        Literal::Bool(b) => LiteralView::Bool(b),
        Literal::String(s) => LiteralView::String(s@),
        Literal::Char(c) => LiteralView::Char(c),
        Literal::U8(n) => LiteralView::U8(n),
        Literal::U16(n) => LiteralView::U16(n),
        Literal::U32(n) => LiteralView::U32(n),
        Literal::U64(n) => LiteralView::U64(n),
        Literal::I8(n) => LiteralView::I8(n),
        Literal::I16(n) => LiteralView::I16(n),
        Literal::I32(n) => LiteralView::I32(n),
        Literal::I64(n) => LiteralView::I64(n),
        Literal::F32(n) => LiteralView::F32(n),
        Literal::F64(n) => LiteralView::F64(n),
    }
}

impl View for Literal {
    type V = LiteralView;

    open spec fn view(&self) -> LiteralView {
        literal_view(*self)
    }
}

impl Clone for Literal {
    fn clone(&self) -> (r: Self)
        ensures
            r == *self,
    {
        match self {
            Literal::Bool(b) => Literal::Bool(*b),
            Literal::String(s) => Literal::String(s.clone()),
            Literal::Char(c) => Literal::Char(*c),
            Literal::U8(n) => Literal::U8(*n),
            Literal::U16(n) => Literal::U16(*n),
            Literal::U32(n) => Literal::U32(*n),
            Literal::U64(n) => Literal::U64(*n),
            Literal::I8(n) => Literal::I8(*n),
            Literal::I16(n) => Literal::I16(*n),
            Literal::I32(n) => Literal::I32(*n),
            Literal::I64(n) => Literal::I64(*n),
            Literal::F32(n) => Literal::F32(*n),
            Literal::F64(n) => Literal::F64(*n),
        }
    }
}

/// Patterns, used inside the branches of case expressions. Binding patterns
/// introduce names that are scoped to the branch body.
#[derive(Debug, PartialEq, Eq)]
pub enum Pattern {
    /// A pattern annotated with a type.
    Ann(RcPattern, RcTerm),
    /// A pattern that binds a variable.
    Binder(Binder),
    /// A pattern compared structurally with a variable in scope.
    Var(Var, LevelShift),
    /// A literal pattern.
    Literal(Literal),
}

/// A reference-counted pattern; cloning is cheap and shares the node.
#[derive(Debug, PartialEq, Eq)]
pub struct RcPattern {
    pub inner: Rc<Pattern>,
}

/// A scope that binds one name over a body, together with the annotation of
/// the bound name. Used by `Pi`, `Lam` and `Let`. The annotation sits outside
/// the binding level; the body sits inside it.
#[derive(Debug, PartialEq, Eq)]
pub struct Scope {
    pub binder: Binder,
    pub ann: RcTerm,
    pub body: RcTerm,
}

/// One entry of a telescope: a labelled, annotated binder. Within one
/// telescope, entry k's annotation may refer to the binders of entries
/// 0..k-1, all at the telescope's own binding level.
#[derive(Debug, PartialEq, Eq)]
pub struct Field {
    pub label: Label,
    pub binder: Binder,
    pub ann: RcTerm,
}

/// One branch of a case expression: a pattern whose binders are scoped over
/// the branch body.
#[derive(Debug, PartialEq, Eq)]
pub struct Clause {
    pub pattern: RcPattern,
    pub body: RcTerm,
}

/// The core term syntax.
#[derive(Debug, PartialEq, Eq)]
pub enum Term {
    /// A term annotated with a type.
    Ann(RcTerm, RcTerm),
    /// Universes.
    Universe(Level),
    /// Literals.
    Literal(Literal),
    /// A variable, carrying the level shift to apply to the definition it
    /// will be replaced by.
    Var(Var, LevelShift),
    /// An external definition, with its type.
    Extern(String, RcTerm),
    /// Dependent function types.
    Pi(Scope),
    /// Lambda abstractions.
    Lam(Scope),
    /// Term application.
    App(RcTerm, RcTerm),
    /// If expressions.
    If(RcTerm, RcTerm, RcTerm),
    /// Dependent record types.
    RecordType(Vec<Field>),
    /// Dependent records.
    Record(Vec<Field>),
    /// Field projection.
    Proj(RcTerm, Label),
    /// Case expressions.
    Case(RcTerm, Vec<Clause>),
    /// Array literals.
    Array(Vec<RcTerm>),
    /// Let bindings.
    Let(Scope),
}

/// A reference-counted term; cloning is cheap and shares the node.
#[derive(Debug, PartialEq, Eq)]
pub struct RcTerm {
    pub inner: Rc<Term>,
}

/// The mathematical value of a `Pattern`.
pub enum PatternView {
    Ann(Box<PatternView>, Box<TermView>),
    Binder(FreeVarView),
    Var(VarView, LevelShift),
    Literal(LiteralView),
}

/// The mathematical value of a `Scope`.
pub struct ScopeView {
    pub binder: FreeVarView,
    pub ann: Box<TermView>,
    pub body: Box<TermView>,
}

/// The mathematical value of a `Field`.
pub struct FieldView {
    pub label: Seq<char>,
    pub binder: FreeVarView,
    pub ann: TermView,
}

/// The mathematical value of a `Clause`.
pub struct ClauseView {
    pub pattern: PatternView,
    pub body: TermView,
}

/// The mathematical value of a `Term`.
pub enum TermView {
    Ann(Box<TermView>, Box<TermView>),
    Universe(Level),
    Literal(LiteralView),
    Var(VarView, LevelShift),
    Extern(Seq<char>, Box<TermView>),
    Pi(ScopeView),
    Lam(ScopeView),
    App(Box<TermView>, Box<TermView>),
    If(Box<TermView>, Box<TermView>, Box<TermView>),
    RecordType(Seq<FieldView>),
    Record(Seq<FieldView>),
    Proj(Box<TermView>, Seq<char>),
    Case(Box<TermView>, Seq<ClauseView>),
    Array(Seq<TermView>),
    Let(ScopeView),
}

pub open spec fn pattern_view(p: Pattern) -> PatternView
    decreases p,
{
    match p {
        Pattern::Ann(q, t) => PatternView::Ann(
            Box::new(pattern_view(*q.inner)),
            Box::new(term_view(*t.inner)),
        ),
        Pattern::Binder(b) => PatternView::Binder(b@),
        Pattern::Var(v, shift) => PatternView::Var(v@, shift),
        Pattern::Literal(l) => PatternView::Literal(literal_view(l)),
    }
}

pub open spec fn scope_view(s: Scope) -> ScopeView
    decreases s,
{
    ScopeView {
        binder: s.binder@,
        ann: Box::new(term_view(*s.ann.inner)),
        body: Box::new(term_view(*s.body.inner)),
    }
}

pub open spec fn field_views(s: Seq<Field>) -> Seq<FieldView>
    decreases s,
{
    if s.len() == 0 {
        Seq::empty()
    } else {
        field_views(s.drop_last()).push(
            FieldView {
                label: s.last().label@,
                binder: s.last().binder@,
                ann: term_view(*s.last().ann.inner),
            },
        )
    }
}

pub open spec fn clause_views(s: Seq<Clause>) -> Seq<ClauseView>
    decreases s,
{
    if s.len() == 0 {
        Seq::empty()
    } else {
        clause_views(s.drop_last()).push(
            ClauseView {
                pattern: pattern_view(*s.last().pattern.inner),
                body: term_view(*s.last().body.inner),
            },
        )
    }
}

pub open spec fn term_views(s: Seq<RcTerm>) -> Seq<TermView>
    decreases s,
{
    if s.len() == 0 {
        Seq::empty()
    } else {
        term_views(s.drop_last()).push(term_view(*s.last().inner))
    }
}

pub open spec fn term_view(t: Term) -> TermView
    decreases t,
{
    match t {
        Term::Ann(a, ty) => TermView::Ann(
            Box::new(term_view(*a.inner)),
            Box::new(term_view(*ty.inner)),
        ),
        Term::Universe(level) => TermView::Universe(level),
        Term::Literal(l) => TermView::Literal(literal_view(l)),
        Term::Var(v, shift) => TermView::Var(v@, shift),
        Term::Extern(name, ty) => TermView::Extern(name@, Box::new(term_view(*ty.inner))),
        Term::Pi(s) => TermView::Pi(scope_view(s)),
        Term::Lam(s) => TermView::Lam(scope_view(s)),
        Term::App(f, a) => TermView::App(
            Box::new(term_view(*f.inner)),
            Box::new(term_view(*a.inner)),
        ),
        Term::If(c, a, b) => TermView::If(
            Box::new(term_view(*c.inner)),
            Box::new(term_view(*a.inner)),
            Box::new(term_view(*b.inner)),
        ),
        Term::RecordType(fields) => TermView::RecordType(field_views(fields@)),
        Term::Record(fields) => TermView::Record(field_views(fields@)),
        Term::Proj(e, label) => TermView::Proj(Box::new(term_view(*e.inner)), label@),
        Term::Case(scrutinee, clauses) => TermView::Case(
            Box::new(term_view(*scrutinee.inner)),
            clause_views(clauses@),
        ),
        Term::Array(elems) => TermView::Array(term_views(elems@)),
        Term::Let(s) => TermView::Let(scope_view(s)),
    }
}

impl View for Pattern {
    type V = PatternView;

    open spec fn view(&self) -> PatternView {
        pattern_view(*self)
    }
}

impl View for RcPattern {
    type V = PatternView;

    open spec fn view(&self) -> PatternView {
        pattern_view(*self.inner)
    }
}

impl View for Term {
    type V = TermView;

    open spec fn view(&self) -> TermView {
        term_view(*self)
    }
}

impl View for RcTerm {
    type V = TermView;

    open spec fn view(&self) -> TermView {
        term_view(*self.inner)
    }
}

impl View for Scope {
    type V = ScopeView;

    open spec fn view(&self) -> ScopeView {
        scope_view(*self)
    }
}

pub proof fn lemma_field_views(s: Seq<Field>)
    ensures
        field_views(s).len() == s.len(),
        forall|i: int|
            0 <= i < s.len() ==> field_views(s)[i] == (FieldView {
                label: #[trigger] s[i].label@,
                binder: s[i].binder@,
                ann: term_view(*s[i].ann.inner),
            }),
    decreases s,
{
    if s.len() > 0 {
        lemma_field_views(s.drop_last());
        assert forall|i: int|
            0 <= i < s.len() implies field_views(s)[i] == (FieldView {
            label: #[trigger] s[i].label@,
            binder: s[i].binder@,
            ann: term_view(*s[i].ann.inner),
        }) by {
            if i < s.len() - 1 {
                assert(s.drop_last()[i] == s[i]);
            } else {
                assert(s.last() == s[i]);
            }
        }
    }
}

pub proof fn lemma_clause_views(s: Seq<Clause>)
    ensures
        clause_views(s).len() == s.len(),
        forall|i: int|
            0 <= i < s.len() ==> clause_views(s)[i] == (ClauseView {
                pattern: pattern_view(*#[trigger] s[i].pattern.inner),
                body: term_view(*s[i].body.inner),
            }),
    decreases s,
{
    if s.len() > 0 {
        lemma_clause_views(s.drop_last());
        assert forall|i: int|
            0 <= i < s.len() implies clause_views(s)[i] == (ClauseView {
            pattern: pattern_view(*#[trigger] s[i].pattern.inner),
            body: term_view(*s[i].body.inner),
        }) by {
            if i < s.len() - 1 {
                assert(s.drop_last()[i] == s[i]);
            } else {
                assert(s.last() == s[i]);
            }
        }
    }
}

pub proof fn lemma_term_views(s: Seq<RcTerm>)
    ensures
        term_views(s).len() == s.len(),
        forall|i: int|
            0 <= i < s.len() ==> term_views(s)[i] == term_view(*#[trigger] s[i].inner),
    decreases s,
{
    if s.len() > 0 {
        lemma_term_views(s.drop_last());
        assert forall|i: int|
            0 <= i < s.len() implies term_views(s)[i] == term_view(*#[trigger] s[i].inner) by {
            if i < s.len() - 1 {
                assert(s.drop_last()[i] == s[i]);
            } else {
                assert(s.last() == s[i]);
            }
        }
    }
}

impl Clone for RcTerm {
    /// Cloning shares the node: the copy is the same term.
    fn clone(&self) -> (r: Self)
        ensures
            r == *self,
    {
        RcTerm { inner: self.inner.clone() }
    }
}

impl Clone for RcPattern {
    /// Cloning shares the node: the copy is the same pattern.
    fn clone(&self) -> (r: Self)
        ensures
            r == *self,
    {
        RcPattern { inner: self.inner.clone() }
    }
}

impl RcTerm {
    /// Wrap a term in a reference-counted node.
    pub fn new(term: Term) -> (r: RcTerm)
        ensures
            r@ == term@,
    {
        RcTerm { inner: Rc::new(term) }
    }
}

impl RcPattern {
    /// Wrap a pattern in a reference-counted node.
    pub fn new(pattern: Pattern) -> (r: RcPattern)
        ensures
            r@ == pattern@,
    {
        RcPattern { inner: Rc::new(pattern) }
    }
}

impl Term {
    /// A universe at the given level.
    pub fn universe(level: Level) -> (r: Term)
        ensures
            r@ == TermView::Universe(level),
    {
        Term::Universe(level)
    }

    /// A variable occurrence with the given level shift.
    pub fn var(var: Var, shift: LevelShift) -> (r: Term)
        ensures
            r@ == TermView::Var(var@, shift),
    {
        Term::Var(var, shift)
    }
}

/// The first term that `m` maps the free variable with id `id` to, if any.
pub open spec fn subst_lookup(m: Seq<(FreeVarView, TermView)>, id: u64) -> Option<TermView>
    decreases m,
{
    if m.len() == 0 {
        None
    } else if m[0].0.id == id {
        Some(m[0].1)
    } else {
        subst_lookup(m.drop_first(), id)
    }
}

pub proof fn lemma_subst_lookup(m: Seq<(FreeVarView, TermView)>, id: u64)
    ensures
        subst_lookup(m, id) matches Some(t) ==> exists|k: int|
            {
                &&& 0 <= k < m.len()
                &&& #[trigger] m[k].0.id == id
                &&& m[k].1 == t
                &&& forall|j: int| 0 <= j < k ==> m[j].0.id != id
            },
        subst_lookup(m, id) is None ==> forall|j: int| 0 <= j < m.len() ==> m[j].0.id != id,
    decreases m,
{
    if m.len() > 0 && m[0].0.id != id {
        lemma_subst_lookup(m.drop_first(), id);
        if let Some(t) = subst_lookup(m, id) {
            let k0 = choose|k: int|
                {
                    &&& 0 <= k < m.drop_first().len()
                    &&& #[trigger] m.drop_first()[k].0.id == id
                    &&& m.drop_first()[k].1 == t
                    &&& forall|j: int| 0 <= j < k ==> m.drop_first()[j].0.id != id
                };
            assert forall|j: int| 0 <= j < k0 + 1 implies m[j].0.id != id by {
                if j > 0 {
                    assert(m.drop_first()[j - 1] == m[j]);
                }
            }
            assert(m[k0 + 1] == m.drop_first()[k0]);
        } else {
            assert forall|j: int| 0 <= j < m.len() implies m[j].0.id != id by {
                if j > 0 {
                    assert(m.drop_first()[j - 1] == m[j]);
                }
            }
        }
    }
}

/// Substitution of a finite mapping of free variables by terms, applied
/// simultaneously throughout a term. Free occurrences whose id is a key of
/// the mapping are replaced by the mapped term (the first matching entry
/// counts); every other variable, and in particular every bound variable, is
/// left unchanged. Binders' stored display names, and the patterns of case
/// branches, are not subject to replacement.
pub open spec fn term_substs(t: TermView, m: Seq<(FreeVarView, TermView)>) -> TermView
    decreases t,
{
    match t {
        TermView::Ann(a, ty) => TermView::Ann(
            Box::new(term_substs(*a, m)),
            Box::new(term_substs(*ty, m)),
        ),
        TermView::Universe(_) => t,
        TermView::Literal(_) => t,
        TermView::Var(v, shift) => match v {
            VarView::Free(n) => match subst_lookup(m, n.id) {
                Some(r) => r,
                None => t,
            },
            VarView::Bound(_) => t,
        },
        TermView::Extern(name, ty) => TermView::Extern(name, Box::new(term_substs(*ty, m))),
        TermView::Pi(s) => TermView::Pi(scope_substs(s, m)),
        TermView::Lam(s) => TermView::Lam(scope_substs(s, m)),
        TermView::App(f, a) => TermView::App(
            Box::new(term_substs(*f, m)),
            Box::new(term_substs(*a, m)),
        ),
        TermView::If(c, a, b) => TermView::If(
            Box::new(term_substs(*c, m)),
            Box::new(term_substs(*a, m)),
            Box::new(term_substs(*b, m)),
        ),
        TermView::RecordType(fields) => TermView::RecordType(fields_substs(fields, m)),
        TermView::Record(fields) => TermView::Record(fields_substs(fields, m)),
        TermView::Proj(e, label) => TermView::Proj(Box::new(term_substs(*e, m)), label),
        TermView::Case(scrutinee, clauses) => TermView::Case(
            Box::new(term_substs(*scrutinee, m)),
            clauses_substs(clauses, m),
        ),
        TermView::Array(elems) => TermView::Array(terms_substs(elems, m)),
        TermView::Let(s) => TermView::Let(scope_substs(s, m)),
    }
}

pub open spec fn scope_substs(s: ScopeView, m: Seq<(FreeVarView, TermView)>) -> ScopeView
    decreases s,
{
    ScopeView {
        binder: s.binder,
        ann: Box::new(term_substs(*s.ann, m)),
        body: Box::new(term_substs(*s.body, m)),
    }
}

pub open spec fn fields_substs(fs: Seq<FieldView>, m: Seq<(FreeVarView, TermView)>) -> Seq<
    FieldView,
>
    decreases fs,
{
    if fs.len() == 0 {
        Seq::empty()
    } else {
        fields_substs(fs.drop_last(), m).push(
            FieldView {
                label: fs.last().label,
                binder: fs.last().binder,
                ann: term_substs(fs.last().ann, m),
            },
        )
    }
}

pub open spec fn clauses_substs(cs: Seq<ClauseView>, m: Seq<(FreeVarView, TermView)>) -> Seq<
    ClauseView,
>
    decreases cs,
{
    if cs.len() == 0 {
        Seq::empty()
    } else {
        clauses_substs(cs.drop_last(), m).push(
            ClauseView { pattern: cs.last().pattern, body: term_substs(cs.last().body, m) },
        )
    }
}

pub open spec fn terms_substs(ts: Seq<TermView>, m: Seq<(FreeVarView, TermView)>) -> Seq<TermView>
    decreases ts,
{
    if ts.len() == 0 {
        Seq::empty()
    } else {
        terms_substs(ts.drop_last(), m).push(term_substs(ts.last(), m))
    }
}

pub proof fn lemma_fields_substs(fs: Seq<FieldView>, m: Seq<(FreeVarView, TermView)>)
    ensures
        fields_substs(fs, m).len() == fs.len(),
        forall|i: int|
            0 <= i < fs.len() ==> fields_substs(fs, m)[i] == (FieldView {
                label: (#[trigger] fs[i]).label,
                binder: fs[i].binder,
                ann: term_substs(fs[i].ann, m),
            }),
    decreases fs,
{
    if fs.len() > 0 {
        lemma_fields_substs(fs.drop_last(), m);
        assert forall|i: int|
            0 <= i < fs.len() implies fields_substs(fs, m)[i] == (FieldView {
            label: (#[trigger] fs[i]).label,
            binder: fs[i].binder,
            ann: term_substs(fs[i].ann, m),
        }) by {
            if i < fs.len() - 1 {
                assert(fs.drop_last()[i] == fs[i]);
            } else {
                assert(fs.last() == fs[i]);
            }
        }
    }
}

pub proof fn lemma_clauses_substs(cs: Seq<ClauseView>, m: Seq<(FreeVarView, TermView)>)
    ensures
        clauses_substs(cs, m).len() == cs.len(),
        forall|i: int|
            0 <= i < cs.len() ==> clauses_substs(cs, m)[i] == (ClauseView {
                pattern: (#[trigger] cs[i]).pattern,
                body: term_substs(cs[i].body, m),
            }),
    decreases cs,
{
    if cs.len() > 0 {
        lemma_clauses_substs(cs.drop_last(), m);
        assert forall|i: int|
            0 <= i < cs.len() implies clauses_substs(cs, m)[i] == (ClauseView {
            pattern: (#[trigger] cs[i]).pattern,
            body: term_substs(cs[i].body, m),
        }) by {
            if i < cs.len() - 1 {
                assert(cs.drop_last()[i] == cs[i]);
            } else {
                assert(cs.last() == cs[i]);
            }
        }
    }
}

pub proof fn lemma_terms_substs(ts: Seq<TermView>, m: Seq<(FreeVarView, TermView)>)
    ensures
        terms_substs(ts, m).len() == ts.len(),
        forall|i: int|
            0 <= i < ts.len() ==> terms_substs(ts, m)[i] == term_substs(#[trigger] ts[i], m),
    decreases ts,
{
    if ts.len() > 0 {
        lemma_terms_substs(ts.drop_last(), m);
        assert forall|i: int|
            0 <= i < ts.len() implies terms_substs(ts, m)[i] == term_substs(
            #[trigger] ts[i],
            m,
        ) by {
            if i < ts.len() - 1 {
                assert(ts.drop_last()[i] == ts[i]);
            } else {
                assert(ts.last() == ts[i]);
            }
        }
    }
}

/// The views of the entries of a substitution mapping, in order.
pub open spec fn subst_views(m: Seq<(FreeVar, RcTerm)>) -> Seq<(FreeVarView, TermView)>
    decreases m,
{
    if m.len() == 0 {
        Seq::empty()
    } else {
        subst_views(m.drop_last()).push((m.last().0@, m.last().1@))
    }
}

pub proof fn lemma_subst_views(m: Seq<(FreeVar, RcTerm)>)
    ensures
        subst_views(m).len() == m.len(),
        forall|i: int|
            0 <= i < m.len() ==> subst_views(m)[i] == ((#[trigger] m[i]).0@, m[i].1@),
    decreases m,
{
    if m.len() > 0 {
        lemma_subst_views(m.drop_last());
        assert forall|i: int|
            0 <= i < m.len() implies subst_views(m)[i] == ((#[trigger] m[i]).0@, m[i].1@) by {
            if i < m.len() - 1 {
                assert(m.drop_last()[i] == m[i]);
            } else {
                assert(m.last() == m[i]);
            }
        }
    }
}

impl RcTerm {
    /// Substitute, throughout this term, the free variables in the domain of
    /// `mappings` by the terms they are mapped to. Bound variables, binder
    /// display names, and the patterns of case branches are left unchanged;
    /// capture is structurally impossible because bound variables are
    /// indices, so nothing is ever renamed.
    #[verifier::loop_isolation(false)]
    pub fn substs(&self, mappings: &Vec<(FreeVar, RcTerm)>) -> (r: RcTerm)
        ensures
            r@ == term_substs(self@, subst_views(mappings@)),
        decreases *self,
    {
        let ghost m = subst_views(mappings@);
        match &*self.inner {
            Term::Ann(a, ty) => RcTerm::new(Term::Ann(a.substs(mappings), ty.substs(mappings))),
            Term::Universe(_) => self.clone(),
            Term::Literal(_) => self.clone(),
            Term::Var(v, _) => {
                let id: Option<u64> = match v {
                    Var::Free(n) => Some(n.id),
                    Var::Bound(_) => None,
                };
                if let Some(id) = id {
                    proof {
                        lemma_subst_views(mappings@);
                        lemma_subst_lookup(m, id);
                    }
                    let mut k: usize = 0;
                    let mut found: Option<&RcTerm> = None;
                    while k < mappings.len()
                        invariant
                            k <= mappings@.len(),
                            match found {
                                Some(t) => exists|f: int|
                                    {
                                        &&& 0 <= f < k
                                        &&& #[trigger] m[f].0.id == id
                                        &&& m[f].1 == t@
                                        &&& forall|j: int| 0 <= j < f ==> m[j].0.id != id
                                    },
                                None => forall|j: int| 0 <= j < k ==> m[j].0.id != id,
                            },
                        decreases mappings@.len() - k,
                    {
                        proof {
                            assert(m[k as int] == (mappings@[k as int].0@, mappings@[k as int].1@));
                        }
                        if found.is_none() && mappings[k].0.id == id {
                            found = Some(&mappings[k].1);
                        }
                        k = k + 1;
                    }
                    match found {
                        Some(t) => {
                            proof {
                                let f = choose|f: int|
                                    {
                                        &&& 0 <= f < mappings@.len()
                                        &&& #[trigger] m[f].0.id == id
                                        &&& m[f].1 == t@
                                        &&& forall|j: int| 0 <= j < f ==> m[j].0.id != id
                                    };
                                if let Some(u) = subst_lookup(m, id) {
                                    let g = choose|g: int|
                                        {
                                            &&& 0 <= g < m.len()
                                            &&& #[trigger] m[g].0.id == id
                                            &&& m[g].1 == u
                                            &&& forall|j: int| 0 <= j < g ==> m[j].0.id != id
                                        };
                                    assert(f == g);
                                }
                            }
                            t.clone()
                        },
                        None => self.clone(),
                    }
                } else {
                    self.clone()
                }
            },
            Term::Extern(name, ty) => RcTerm::new(
                Term::Extern(name.clone(), ty.substs(mappings)),
            ),
            Term::Pi(s) => RcTerm::new(Term::Pi(scope_substs_exec(s, mappings))),
            Term::Lam(s) => RcTerm::new(Term::Lam(scope_substs_exec(s, mappings))),
            Term::App(f, a) => RcTerm::new(Term::App(f.substs(mappings), a.substs(mappings))),
            Term::If(c, a, b) => RcTerm::new(
                Term::If(c.substs(mappings), a.substs(mappings), b.substs(mappings)),
            ),
            Term::RecordType(fields) => {
                if fields.len() == 0 {
                    // An empty telescope is a fixed point of substitution.
                    proof {
                        assert(field_views(fields@) =~= fields_substs(field_views(fields@), m));
                    }
                    self.clone()
                } else {
                    RcTerm::new(Term::RecordType(fields_substs_exec(fields, mappings)))
                }
            },
            Term::Record(fields) => {
                if fields.len() == 0 {
                    proof {
                        assert(field_views(fields@) =~= fields_substs(field_views(fields@), m));
                    }
                    self.clone()
                } else {
                    RcTerm::new(Term::Record(fields_substs_exec(fields, mappings)))
                }
            },
            Term::Proj(e, label) => RcTerm::new(Term::Proj(e.substs(mappings), label.clone())),
            Term::Case(scrutinee, clauses) => RcTerm::new(
                Term::Case(scrutinee.substs(mappings), clauses_substs_exec(clauses, mappings)),
            ),
            Term::Array(elems) => RcTerm::new(Term::Array(terms_substs_exec(elems, mappings))),
            Term::Let(s) => RcTerm::new(Term::Let(scope_substs_exec(s, mappings))),
        }
    }
}

fn scope_substs_exec(s: &Scope, mappings: &Vec<(FreeVar, RcTerm)>) -> (r: Scope)
    ensures
        r@ == scope_substs(s@, subst_views(mappings@)),
    decreases *s,
{
    Scope {
        binder: s.binder.clone(),
        ann: s.ann.substs(mappings),
        body: s.body.substs(mappings),
    }
}

#[verifier::loop_isolation(false)]
fn fields_substs_exec(fields: &Vec<Field>, mappings: &Vec<(FreeVar, RcTerm)>) -> (r: Vec<Field>)
    ensures
        field_views(r@) == fields_substs(field_views(fields@), subst_views(mappings@)),
    decreases fields@,
{
    let ghost m = subst_views(mappings@);
    let mut out: Vec<Field> = Vec::new();
    let mut i: usize = 0;
    while i < fields.len()
        invariant
            i <= fields@.len(),
            out@.len() == i,
            forall|j: int|
                0 <= j < i ==> (#[trigger] out@[j]).label@ == fields@[j].label@ && out@[j].binder@
                    == fields@[j].binder@ && term_view(*out@[j].ann.inner) == term_substs(
                    term_view(*fields@[j].ann.inner),
                    m,
                ),
        decreases fields@.len() - i,
    {
        proof {
            assert(decreases_to!(fields@ => fields@[i as int]));
        }
        let f = &fields[i];
        let newf = Field {
            label: f.label.clone(),
            binder: f.binder.clone(),
            ann: f.ann.substs(mappings),
        };
        out.push(newf);
        i = i + 1;
    }
    proof {
        lemma_field_views(out@);
        lemma_field_views(fields@);
        lemma_fields_substs(field_views(fields@), m);
        assert forall|k: int|
            0 <= k < out@.len() implies field_views(out@)[k] == fields_substs(
            field_views(fields@),
            m,
        )[k] by {
            assert(field_views(out@)[k] == (FieldView {
                label: out@[k].label@,
                binder: out@[k].binder@,
                ann: term_view(*out@[k].ann.inner),
            }));
            assert(field_views(fields@)[k] == (FieldView {
                label: fields@[k].label@,
                binder: fields@[k].binder@,
                ann: term_view(*fields@[k].ann.inner),
            }));
        }
        assert(field_views(out@) =~= fields_substs(field_views(fields@), m));
    }
    out
}

#[verifier::loop_isolation(false)]
fn clauses_substs_exec(clauses: &Vec<Clause>, mappings: &Vec<(FreeVar, RcTerm)>) -> (r: Vec<
    Clause,
>)
    ensures
        clause_views(r@) == clauses_substs(clause_views(clauses@), subst_views(mappings@)),
    decreases clauses@,
{
    let ghost m = subst_views(mappings@);
    let mut out: Vec<Clause> = Vec::new();
    let mut i: usize = 0;
    while i < clauses.len()
        invariant
            i <= clauses@.len(),
            out@.len() == i,
            forall|j: int|
                0 <= j < i ==> pattern_view(*(#[trigger] out@[j]).pattern.inner) == pattern_view(
                    *clauses@[j].pattern.inner,
                ) && term_view(*out@[j].body.inner) == term_substs(
                    term_view(*clauses@[j].body.inner),
                    m,
                ),
        decreases clauses@.len() - i,
    {
        proof {
            assert(decreases_to!(clauses@ => clauses@[i as int]));
        }
        let c = &clauses[i];
        let newc = Clause { pattern: c.pattern.clone(), body: c.body.substs(mappings) };
        out.push(newc);
        i = i + 1;
    }
    proof {
        lemma_clause_views(out@);
        lemma_clause_views(clauses@);
        lemma_clauses_substs(clause_views(clauses@), m);
        assert forall|k: int|
            0 <= k < out@.len() implies clause_views(out@)[k] == clauses_substs(
            clause_views(clauses@),
            m,
        )[k] by {
            assert(clause_views(out@)[k] == (ClauseView {
                pattern: pattern_view(*out@[k].pattern.inner),
                body: term_view(*out@[k].body.inner),
            }));
            assert(clause_views(clauses@)[k] == (ClauseView {
                pattern: pattern_view(*clauses@[k].pattern.inner),
                body: term_view(*clauses@[k].body.inner),
            }));
        }
        assert(clause_views(out@) =~= clauses_substs(clause_views(clauses@), m));
    }
    out
}

#[verifier::loop_isolation(false)]
fn terms_substs_exec(elems: &Vec<RcTerm>, mappings: &Vec<(FreeVar, RcTerm)>) -> (r: Vec<RcTerm>)
    ensures
        term_views(r@) == terms_substs(term_views(elems@), subst_views(mappings@)),
    decreases elems@,
{
    let ghost m = subst_views(mappings@);
    let mut out: Vec<RcTerm> = Vec::new();
    let mut i: usize = 0;
    while i < elems.len()
        invariant
            i <= elems@.len(),
            out@.len() == i,
            forall|j: int|
                0 <= j < i ==> term_view(*(#[trigger] out@[j]).inner) == term_substs(
                    term_view(*elems@[j].inner),
                    m,
                ),
        decreases elems@.len() - i,
    {
        proof {
            assert(decreases_to!(elems@ => elems@[i as int]));
        }
        let e = elems[i].substs(mappings);
        out.push(e);
        i = i + 1;
    }
    proof {
        lemma_term_views(out@);
        lemma_term_views(elems@);
        lemma_terms_substs(term_views(elems@), m);
        assert forall|k: int|
            0 <= k < out@.len() implies term_views(out@)[k] == terms_substs(
            term_views(elems@),
            m,
        )[k] by {
            assert(term_views(out@)[k] == term_view(*out@[k].inner));
            assert(term_views(elems@)[k] == term_view(*elems@[k].inner));
        }
        assert(term_views(out@) =~= terms_substs(term_views(elems@), m));
    }
    out
}

/// A module definition.
#[derive(Debug, PartialEq, Eq)]
pub struct Module {
    /// The items contained in the module.
    pub items: Vec<Item>,
}

/// Top-level items within a module.
#[derive(Debug, PartialEq, Eq)]
pub enum Item {
    /// Declares the type associated with a label, prior to its definition.
    Declaration { label: Label, binder: Binder, term: RcTerm },
    /// Defines the term that should be associated with a label.
    Definition { label: Label, binder: Binder, term: RcTerm },
}

} // verus!
