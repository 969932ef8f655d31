//! Structural alpha-equivalence over patterns and terms: bound variables are
//! compared by index, free variables by id, and binder display names are
//! ignored; record labels and extern names are significant.

use vstd::prelude::*;
use crate::term::{
    clause_views, field_views, lemma_clause_views, lemma_field_views, lemma_term_views,
    term_views, Clause, ClauseView, Field, FieldView, Literal, Pattern, PatternView, RcPattern,
    RcTerm, Scope, ScopeView, Term, TermView,
};
use crate::value::{
    lemma_value_views, lemma_vclause_views, lemma_vfield_views, value_views, vclause_views,
    vfield_views, Head, HeadView, Neutral, NeutralView, RcNeutral, RcValue, Value,
    ValueClause, ValueClauseView, ValueField, ValueFieldView, ValueScopeView, ValueView,
};
use crate::var::{var_alpha_eq, Var};

verus! {

pub open spec fn pattern_alpha_eq(a: PatternView, b: PatternView) -> bool
    decreases a,
{
    match (a, b) {
        (PatternView::Ann(p1, t1), PatternView::Ann(p2, t2)) => pattern_alpha_eq(*p1, *p2)
            && term_alpha_eq(*t1, *t2),
        (PatternView::Binder(_), PatternView::Binder(_)) => true,
        (PatternView::Var(v1, s1), PatternView::Var(v2, s2)) => var_alpha_eq(v1, v2) && s1 == s2,
        (PatternView::Literal(l1), PatternView::Literal(l2)) => l1 == l2,
        _ => false,
    }
}

pub open spec fn scope_alpha_eq(a: ScopeView, b: ScopeView) -> bool
    decreases a,
{
    term_alpha_eq(*a.ann, *b.ann) && term_alpha_eq(*a.body, *b.body)
}

pub open spec fn fields_alpha_eq(a: Seq<FieldView>, b: Seq<FieldView>) -> bool
    decreases a,
{
    a.len() == b.len() && (a.len() == 0 || (fields_alpha_eq(a.drop_last(), b.drop_last())
        && a.last().label == b.last().label && term_alpha_eq(a.last().ann, b.last().ann)))
}

pub open spec fn clauses_alpha_eq(a: Seq<ClauseView>, b: Seq<ClauseView>) -> bool
    decreases a,
{
    a.len() == b.len() && (a.len() == 0 || (clauses_alpha_eq(a.drop_last(), b.drop_last())
        && pattern_alpha_eq(a.last().pattern, b.last().pattern) && term_alpha_eq(
        a.last().body,
        b.last().body,
    )))
}

pub open spec fn terms_alpha_eq(a: Seq<TermView>, b: Seq<TermView>) -> bool
    decreases a,
{
    a.len() == b.len() && (a.len() == 0 || (terms_alpha_eq(a.drop_last(), b.drop_last())
        && term_alpha_eq(a.last(), b.last())))
}

pub open spec fn term_alpha_eq(a: TermView, b: TermView) -> bool
    decreases a,
{
    match (a, b) {
        (TermView::Ann(a1, t1), TermView::Ann(a2, t2)) => term_alpha_eq(*a1, *a2) && term_alpha_eq(
            *t1,
            *t2,
        ),
        (TermView::Universe(l1), TermView::Universe(l2)) => l1 == l2,
        (TermView::Literal(l1), TermView::Literal(l2)) => l1 == l2,
        (TermView::Var(v1, s1), TermView::Var(v2, s2)) => var_alpha_eq(v1, v2) && s1 == s2,
        (TermView::Extern(n1, t1), TermView::Extern(n2, t2)) => n1 == n2 && term_alpha_eq(
            *t1,
            *t2,
        ),
        (TermView::Pi(s1), TermView::Pi(s2)) => scope_alpha_eq(s1, s2),
        (TermView::Lam(s1), TermView::Lam(s2)) => scope_alpha_eq(s1, s2),
        (TermView::App(f1, a1), TermView::App(f2, a2)) => term_alpha_eq(*f1, *f2) && term_alpha_eq(
            *a1,
            *a2,
        ),
        (TermView::If(c1, t1, e1), TermView::If(c2, t2, e2)) => term_alpha_eq(*c1, *c2)
            && term_alpha_eq(*t1, *t2) && term_alpha_eq(*e1, *e2),
        (TermView::RecordType(f1), TermView::RecordType(f2)) => fields_alpha_eq(f1, f2),
        (TermView::Record(f1), TermView::Record(f2)) => fields_alpha_eq(f1, f2),
        (TermView::Proj(e1, l1), TermView::Proj(e2, l2)) => term_alpha_eq(*e1, *e2) && l1 == l2,
        (TermView::Case(s1, c1), TermView::Case(s2, c2)) => term_alpha_eq(*s1, *s2)
            && clauses_alpha_eq(c1, c2),
        (TermView::Array(e1), TermView::Array(e2)) => terms_alpha_eq(e1, e2),
        (TermView::Let(s1), TermView::Let(s2)) => scope_alpha_eq(s1, s2),
        _ => false,
    }
}

pub proof fn lemma_fields_alpha_eq_pointwise(a: Seq<FieldView>, b: Seq<FieldView>)
    ensures
        fields_alpha_eq(a, b) <==> (a.len() == b.len() && forall|i: int|
            0 <= i < a.len() ==> (#[trigger] a[i]).label == b[i].label && term_alpha_eq(
                a[i].ann,
                b[i].ann,
            )),
    decreases a,
{
    if a.len() == b.len() && a.len() > 0 {
        lemma_fields_alpha_eq_pointwise(a.drop_last(), b.drop_last());
        assert forall|i: int| 0 <= i < a.len() - 1 implies a.drop_last()[i] == a[i]
            && b.drop_last()[i] == b[i] by {}
        assert(a.last() == a[a.len() - 1]);
        assert(b.last() == b[a.len() - 1]);
    }
}

pub proof fn lemma_clauses_alpha_eq_pointwise(a: Seq<ClauseView>, b: Seq<ClauseView>)
    ensures
        clauses_alpha_eq(a, b) <==> (a.len() == b.len() && forall|i: int|
            0 <= i < a.len() ==> pattern_alpha_eq((#[trigger] a[i]).pattern, b[i].pattern)
                && term_alpha_eq(a[i].body, b[i].body)),
    decreases a,
{
    if a.len() == b.len() && a.len() > 0 {
        lemma_clauses_alpha_eq_pointwise(a.drop_last(), b.drop_last());
        assert forall|i: int| 0 <= i < a.len() - 1 implies a.drop_last()[i] == a[i]
            && b.drop_last()[i] == b[i] by {}
        assert(a.last() == a[a.len() - 1]);
        assert(b.last() == b[a.len() - 1]);
    }
}

pub proof fn lemma_terms_alpha_eq_pointwise(a: Seq<TermView>, b: Seq<TermView>)
    ensures
        terms_alpha_eq(a, b) <==> (a.len() == b.len() && forall|i: int|
            0 <= i < a.len() ==> term_alpha_eq(#[trigger] a[i], b[i])),
    decreases a,
{
    if a.len() == b.len() && a.len() > 0 {
        lemma_terms_alpha_eq_pointwise(a.drop_last(), b.drop_last());
        assert forall|i: int| 0 <= i < a.len() - 1 implies a.drop_last()[i] == a[i]
            && b.drop_last()[i] == b[i] by {}
        assert(a.last() == a[a.len() - 1]);
        assert(b.last() == b[a.len() - 1]);
    }
}

pub open spec fn value_alpha_eq(a: ValueView, b: ValueView) -> bool
    decreases a,
{
    match (a, b) {
        (ValueView::Universe(l1), ValueView::Universe(l2)) => l1 == l2,
        (ValueView::Literal(l1), ValueView::Literal(l2)) => l1 == l2,
        (ValueView::Pi(s1), ValueView::Pi(s2)) => value_scope_alpha_eq(s1, s2),
        (ValueView::Lam(s1), ValueView::Lam(s2)) => value_scope_alpha_eq(s1, s2),
        (ValueView::RecordType(f1), ValueView::RecordType(f2)) => vfields_alpha_eq(f1, f2),
        (ValueView::Record(f1), ValueView::Record(f2)) => vfields_alpha_eq(f1, f2),
        (ValueView::Array(e1), ValueView::Array(e2)) => values_alpha_eq(e1, e2),
        (ValueView::Neutral(n1, s1), ValueView::Neutral(n2, s2)) => neutral_alpha_eq(*n1, *n2)
            && values_alpha_eq(s1, s2),
        _ => false,
    }
}

pub open spec fn value_scope_alpha_eq(a: ValueScopeView, b: ValueScopeView) -> bool
    decreases a,
{
    value_alpha_eq(*a.ann, *b.ann) && value_alpha_eq(*a.body, *b.body)
}

pub open spec fn head_alpha_eq(a: HeadView, b: HeadView) -> bool
    decreases a,
{
    match (a, b) {
        (HeadView::Var(v1, s1), HeadView::Var(v2, s2)) => var_alpha_eq(v1, v2) && s1 == s2,
        (HeadView::Extern(n1, t1), HeadView::Extern(n2, t2)) => n1 == n2 && value_alpha_eq(
            *t1,
            *t2,
        ),
        _ => false,
    }
}

pub open spec fn neutral_alpha_eq(a: NeutralView, b: NeutralView) -> bool
    decreases a,
{
    match (a, b) {
        (NeutralView::Head(h1), NeutralView::Head(h2)) => head_alpha_eq(h1, h2),
        (NeutralView::If(c1, t1, e1), NeutralView::If(c2, t2, e2)) => neutral_alpha_eq(*c1, *c2)
            && value_alpha_eq(*t1, *t2) && value_alpha_eq(*e1, *e2),
        (NeutralView::Proj(e1, l1), NeutralView::Proj(e2, l2)) => neutral_alpha_eq(*e1, *e2) && l1
            == l2,
        (NeutralView::Case(e1, c1), NeutralView::Case(e2, c2)) => neutral_alpha_eq(*e1, *e2)
            && vclauses_alpha_eq(c1, c2),
        _ => false,
    }
}

pub open spec fn vfields_alpha_eq(a: Seq<ValueFieldView>, b: Seq<ValueFieldView>) -> bool
    decreases a,
{
    a.len() == b.len() && (a.len() == 0 || (vfields_alpha_eq(a.drop_last(), b.drop_last())
        && a.last().label == b.last().label && value_alpha_eq(a.last().value, b.last().value)))
}

pub open spec fn vclauses_alpha_eq(a: Seq<ValueClauseView>, b: Seq<ValueClauseView>) -> bool
    decreases a,
{
    a.len() == b.len() && (a.len() == 0 || (vclauses_alpha_eq(a.drop_last(), b.drop_last())
        && pattern_alpha_eq(a.last().pattern, b.last().pattern) && value_alpha_eq(
        a.last().body,
        b.last().body,
    )))
}

pub open spec fn values_alpha_eq(a: Seq<ValueView>, b: Seq<ValueView>) -> bool
    decreases a,
{
    a.len() == b.len() && (a.len() == 0 || (values_alpha_eq(a.drop_last(), b.drop_last())
        && value_alpha_eq(a.last(), b.last())))
}

pub proof fn lemma_vfields_alpha_eq_pointwise(a: Seq<ValueFieldView>, b: Seq<ValueFieldView>)
    ensures
        vfields_alpha_eq(a, b) <==> (a.len() == b.len() && forall|i: int|
            0 <= i < a.len() ==> (#[trigger] a[i]).label == b[i].label && value_alpha_eq(
                a[i].value,
                b[i].value,
            )),
    decreases a,
{
    if a.len() == b.len() && a.len() > 0 {
        lemma_vfields_alpha_eq_pointwise(a.drop_last(), b.drop_last());
        assert forall|i: int| 0 <= i < a.len() - 1 implies a.drop_last()[i] == a[i]
            && b.drop_last()[i] == b[i] by {}
        assert(a.last() == a[a.len() - 1]);
        assert(b.last() == b[a.len() - 1]);
    }
}

pub proof fn lemma_vclauses_alpha_eq_pointwise(a: Seq<ValueClauseView>, b: Seq<ValueClauseView>)
    ensures
        vclauses_alpha_eq(a, b) <==> (a.len() == b.len() && forall|i: int|
            0 <= i < a.len() ==> pattern_alpha_eq((#[trigger] a[i]).pattern, b[i].pattern)
                && value_alpha_eq(a[i].body, b[i].body)),
    decreases a,
{
    if a.len() == b.len() && a.len() > 0 {
        lemma_vclauses_alpha_eq_pointwise(a.drop_last(), b.drop_last());
        assert forall|i: int| 0 <= i < a.len() - 1 implies a.drop_last()[i] == a[i]
            && b.drop_last()[i] == b[i] by {}
        assert(a.last() == a[a.len() - 1]);
        assert(b.last() == b[a.len() - 1]);
    }
}

pub proof fn lemma_values_alpha_eq_pointwise(a: Seq<ValueView>, b: Seq<ValueView>)
    ensures
        values_alpha_eq(a, b) <==> (a.len() == b.len() && forall|i: int|
            0 <= i < a.len() ==> value_alpha_eq(#[trigger] a[i], b[i])),
    decreases a,
{
    if a.len() == b.len() && a.len() > 0 {
        lemma_values_alpha_eq_pointwise(a.drop_last(), b.drop_last());
        assert forall|i: int| 0 <= i < a.len() - 1 implies a.drop_last()[i] == a[i]
            && b.drop_last()[i] == b[i] by {}
        assert(a.last() == a[a.len() - 1]);
        assert(b.last() == b[a.len() - 1]);
    }
}

impl Literal {
    /// Literals are alpha-equivalent exactly when they are equal; float
    /// literals are compared by their stored bit patterns.
    pub fn alpha_eq(&self, other: &Literal) -> (r: bool)
        ensures
            r == (self@ == other@),
    {
        match (self, other) {
            (Literal::Bool(a), Literal::Bool(b)) => *a == *b,
            (Literal::String(a), Literal::String(b)) => *a == *b,
            (Literal::Char(a), Literal::Char(b)) => *a == *b,
            (Literal::U8(a), Literal::U8(b)) => *a == *b,
            (Literal::U16(a), Literal::U16(b)) => *a == *b,
            (Literal::U32(a), Literal::U32(b)) => *a == *b,
            (Literal::U64(a), Literal::U64(b)) => *a == *b,
            (Literal::I8(a), Literal::I8(b)) => *a == *b,
            (Literal::I16(a), Literal::I16(b)) => *a == *b,
            (Literal::I32(a), Literal::I32(b)) => *a == *b,
            (Literal::I64(a), Literal::I64(b)) => *a == *b,
            (Literal::F32(a), Literal::F32(b)) => *a == *b,
            (Literal::F64(a), Literal::F64(b)) => *a == *b,
            _ => false,
        }
    }
}

impl Pattern {
    pub fn alpha_eq(&self, other: &Pattern) -> (r: bool)
        ensures
            r == pattern_alpha_eq(self@, other@),
        decreases *self,
    {
        match (self, other) {
            (Pattern::Ann(p1, t1), Pattern::Ann(p2, t2)) => p1.alpha_eq(p2) && t1.alpha_eq(t2),
            (Pattern::Binder(_), Pattern::Binder(_)) => true,
            (Pattern::Var(v1, s1), Pattern::Var(v2, s2)) => v1.alpha_eq(v2) && s1.0 == s2.0,
            (Pattern::Literal(l1), Pattern::Literal(l2)) => l1.alpha_eq(l2),
            _ => false,
        }
    }
}

impl RcPattern {
    pub fn alpha_eq(&self, other: &RcPattern) -> (r: bool)
        ensures
            r == pattern_alpha_eq(self@, other@),
        decreases *self,
    {
        (*self.inner).alpha_eq(&*other.inner)
    }
}

impl Scope {
    pub fn alpha_eq(&self, other: &Scope) -> (r: bool)
        ensures
            r == scope_alpha_eq(self@, other@),
        decreases *self,
    {
        self.ann.alpha_eq(&other.ann) && self.body.alpha_eq(&other.body)
    }
}

impl Term {
    pub fn alpha_eq(&self, other: &Term) -> (r: bool)
        ensures
            r == term_alpha_eq(self@, other@),
        decreases *self,
    {
        match (self, other) {
            (Term::Ann(a1, t1), Term::Ann(a2, t2)) => a1.alpha_eq(a2) && t1.alpha_eq(t2),
            (Term::Universe(l1), Term::Universe(l2)) => l1.0 == l2.0,
            (Term::Literal(l1), Term::Literal(l2)) => l1.alpha_eq(l2),
            (Term::Var(v1, s1), Term::Var(v2, s2)) => v1.alpha_eq(v2) && s1.0 == s2.0,
            (Term::Extern(n1, t1), Term::Extern(n2, t2)) => *n1 == *n2 && t1.alpha_eq(t2),
            (Term::Pi(s1), Term::Pi(s2)) => s1.alpha_eq(s2),
            (Term::Lam(s1), Term::Lam(s2)) => s1.alpha_eq(s2),
            (Term::App(f1, a1), Term::App(f2, a2)) => f1.alpha_eq(f2) && a1.alpha_eq(a2),
            (Term::If(c1, t1, e1), Term::If(c2, t2, e2)) => c1.alpha_eq(c2) && t1.alpha_eq(t2)
                && e1.alpha_eq(e2),
            (Term::RecordType(f1), Term::RecordType(f2)) => fields_alpha_eq_exec(f1, f2),
            (Term::Record(f1), Term::Record(f2)) => fields_alpha_eq_exec(f1, f2),
            (Term::Proj(e1, l1), Term::Proj(e2, l2)) => e1.alpha_eq(e2) && l1.alpha_eq(l2),
            (Term::Case(s1, c1), Term::Case(s2, c2)) => s1.alpha_eq(s2) && clauses_alpha_eq_exec(
                c1,
                c2,
            ),
            (Term::Array(e1), Term::Array(e2)) => terms_alpha_eq_exec(e1, e2),
            (Term::Let(s1), Term::Let(s2)) => s1.alpha_eq(s2),
            _ => false,
        }
    }
}

impl RcTerm {
    /// Structural alpha-equivalence of terms.
    pub fn alpha_eq(&self, other: &RcTerm) -> (r: bool)
        ensures
            r == term_alpha_eq(self@, other@),
        decreases *self,
    {
        (*self.inner).alpha_eq(&*other.inner)
    }
}

impl Value {
    /// Structural alpha-equivalence of values.
    pub fn alpha_eq(&self, other: &Value) -> (r: bool)
        ensures
            r == value_alpha_eq(self@, other@),
        decreases *self,
    {
        match (self, other) {
            (Value::Universe(l1), Value::Universe(l2)) => l1.0 == l2.0,
            (Value::Literal(l1), Value::Literal(l2)) => l1.alpha_eq(l2),
            (Value::Pi(s1), Value::Pi(s2)) => s1.ann.alpha_eq(&s2.ann) && s1.body.alpha_eq(
                &s2.body,
            ),
            (Value::Lam(s1), Value::Lam(s2)) => s1.ann.alpha_eq(&s2.ann) && s1.body.alpha_eq(
                &s2.body,
            ),
            (Value::RecordType(f1), Value::RecordType(f2)) => vfields_alpha_eq_exec(f1, f2),
            (Value::Record(f1), Value::Record(f2)) => vfields_alpha_eq_exec(f1, f2),
            (Value::Array(e1), Value::Array(e2)) => values_alpha_eq_exec(e1, e2),
            (Value::Neutral(n1, s1), Value::Neutral(n2, s2)) => n1.alpha_eq(n2)
                && values_alpha_eq_exec(s1, s2),
            _ => false,
        }
    }
}

impl RcValue {
    /// Structural alpha-equivalence of values.
    pub fn alpha_eq(&self, other: &RcValue) -> (r: bool)
        ensures
            r == value_alpha_eq(self@, other@),
        decreases *self,
    {
        (*self.inner).alpha_eq(&*other.inner)
    }
}

impl Head {
    /// Structural alpha-equivalence of stuck heads.
    pub fn alpha_eq(&self, other: &Head) -> (r: bool)
        ensures
            r == head_alpha_eq(self@, other@),
        decreases *self,
    {
        match (self, other) {
            (Head::Var(v1, s1), Head::Var(v2, s2)) => v1.alpha_eq(v2) && s1.0 == s2.0,
            (Head::Extern(n1, t1), Head::Extern(n2, t2)) => *n1 == *n2 && t1.alpha_eq(t2),
            _ => false,
        }
    }
}

impl Neutral {
    /// Structural alpha-equivalence of neutral values.
    pub fn alpha_eq(&self, other: &Neutral) -> (r: bool)
        ensures
            r == neutral_alpha_eq(self@, other@),
        decreases *self,
    {
        match (self, other) {
            (Neutral::Head(h1), Neutral::Head(h2)) => h1.alpha_eq(h2),
            (Neutral::If(c1, t1, e1), Neutral::If(c2, t2, e2)) => c1.alpha_eq(c2) && t1.alpha_eq(
                t2,
            ) && e1.alpha_eq(e2),
            (Neutral::Proj(e1, l1), Neutral::Proj(e2, l2)) => e1.alpha_eq(e2) && l1.alpha_eq(l2),
            (Neutral::Case(e1, c1), Neutral::Case(e2, c2)) => e1.alpha_eq(e2)
                && vclauses_alpha_eq_exec(c1, c2),
            _ => false,
        }
    }
}

impl RcNeutral {
    /// Structural alpha-equivalence of neutral values.
    pub fn alpha_eq(&self, other: &RcNeutral) -> (r: bool)
        ensures
            r == neutral_alpha_eq(self@, other@),
        decreases *self,
    {
        (*self.inner).alpha_eq(&*other.inner)
    }
}

#[verifier::loop_isolation(false)]
fn vfields_alpha_eq_exec(a: &Vec<ValueField>, b: &Vec<ValueField>) -> (r: bool)
    ensures
        r == vfields_alpha_eq(vfield_views(a@), vfield_views(b@)),
    decreases a@,
{
    proof {
        lemma_vfield_views(a@);
        lemma_vfield_views(b@);
        lemma_vfields_alpha_eq_pointwise(vfield_views(a@), vfield_views(b@));
    }
    if a.len() != b.len() {
        return false;
    }
    let mut i: usize = 0;
    while i < a.len()
        invariant
            i <= a@.len(),
            forall|j: int|
                0 <= j < i ==> (#[trigger] vfield_views(a@)[j]).label == vfield_views(b@)[j].label
                    && value_alpha_eq(vfield_views(a@)[j].value, vfield_views(b@)[j].value),
        decreases a@.len() - i,
    {
        proof {
            assert(decreases_to!(a@ => a@[i as int]));
        }
        if !a[i].label.alpha_eq(&b[i].label) {
            return false;
        }
        if !a[i].value.alpha_eq(&b[i].value) {
            return false;
        }
        i = i + 1;
    }
    true
}

#[verifier::loop_isolation(false)]
fn vclauses_alpha_eq_exec(a: &Vec<ValueClause>, b: &Vec<ValueClause>) -> (r: bool)
    ensures
        r == vclauses_alpha_eq(vclause_views(a@), vclause_views(b@)),
    decreases a@,
{
    proof {
        lemma_vclause_views(a@);
        lemma_vclause_views(b@);
        lemma_vclauses_alpha_eq_pointwise(vclause_views(a@), vclause_views(b@));
    }
    if a.len() != b.len() {
        return false;
    }
    let mut i: usize = 0;
    while i < a.len()
        invariant
            i <= a@.len(),
            forall|j: int|
                0 <= j < i ==> pattern_alpha_eq(
                    (#[trigger] vclause_views(a@)[j]).pattern,
                    vclause_views(b@)[j].pattern,
                ) && value_alpha_eq(vclause_views(a@)[j].body, vclause_views(b@)[j].body),
        decreases a@.len() - i,
    {
        proof {
            assert(decreases_to!(a@ => a@[i as int]));
        }
        if !a[i].pattern.alpha_eq(&b[i].pattern) {
            return false;
        }
        if !a[i].body.alpha_eq(&b[i].body) {
            return false;
        }
        i = i + 1;
    }
    true
}

#[verifier::loop_isolation(false)]
fn values_alpha_eq_exec(a: &Vec<RcValue>, b: &Vec<RcValue>) -> (r: bool)
    ensures
        r == values_alpha_eq(value_views(a@), value_views(b@)),
    decreases a@,
{
    proof {
        lemma_value_views(a@);
        lemma_value_views(b@);
        lemma_values_alpha_eq_pointwise(value_views(a@), value_views(b@));
    }
    if a.len() != b.len() {
        return false;
    }
    let mut i: usize = 0;
    while i < a.len()
        invariant
            i <= a@.len(),
            forall|j: int|
                0 <= j < i ==> value_alpha_eq(#[trigger] value_views(a@)[j], value_views(b@)[j]),
        decreases a@.len() - i,
    {
        proof {
            assert(decreases_to!(a@ => a@[i as int]));
        }
        if !a[i].alpha_eq(&b[i]) {
            return false;
        }
        i = i + 1;
    }
    true
}

#[verifier::loop_isolation(false)]
fn fields_alpha_eq_exec(a: &Vec<Field>, b: &Vec<Field>) -> (r: bool)
    ensures
        r == fields_alpha_eq(field_views(a@), field_views(b@)),
    decreases a@,
{
    proof {
        lemma_field_views(a@);
        lemma_field_views(b@);
        lemma_fields_alpha_eq_pointwise(field_views(a@), field_views(b@));
    }
    if a.len() != b.len() {
        return false;
    }
    let mut i: usize = 0;
    while i < a.len()
        invariant
            i <= a@.len(),
            forall|j: int|
                0 <= j < i ==> (#[trigger] field_views(a@)[j]).label == field_views(b@)[j].label
                    && term_alpha_eq(field_views(a@)[j].ann, field_views(b@)[j].ann),
        decreases a@.len() - i,
    {
        proof {
            assert(decreases_to!(a@ => a@[i as int]));
        }
        if !a[i].label.alpha_eq(&b[i].label) {
            return false;
        }
        if !a[i].ann.alpha_eq(&b[i].ann) {
            return false;
        }
        i = i + 1;
    }
    true
}

#[verifier::loop_isolation(false)]
fn clauses_alpha_eq_exec(a: &Vec<Clause>, b: &Vec<Clause>) -> (r: bool)
    ensures
        r == clauses_alpha_eq(clause_views(a@), clause_views(b@)),
    decreases a@,
{
    proof {
        lemma_clause_views(a@);
        lemma_clause_views(b@);
        lemma_clauses_alpha_eq_pointwise(clause_views(a@), clause_views(b@));
    }
    if a.len() != b.len() {
        return false;
    }
    let mut i: usize = 0;
    while i < a.len()
        invariant
            i <= a@.len(),
            forall|j: int|
                0 <= j < i ==> pattern_alpha_eq(
                    (#[trigger] clause_views(a@)[j]).pattern,
                    clause_views(b@)[j].pattern,
                ) && term_alpha_eq(clause_views(a@)[j].body, clause_views(b@)[j].body),
        decreases a@.len() - i,
    {
        proof {
            assert(decreases_to!(a@ => a@[i as int]));
        }
        if !a[i].pattern.alpha_eq(&b[i].pattern) {
            return false;
        }
        if !a[i].body.alpha_eq(&b[i].body) {
            return false;
        }
        i = i + 1;
    }
    true
}

#[verifier::loop_isolation(false)]
fn terms_alpha_eq_exec(a: &Vec<RcTerm>, b: &Vec<RcTerm>) -> (r: bool)
    ensures
        r == terms_alpha_eq(term_views(a@), term_views(b@)),
    decreases a@,
{
    proof {
        lemma_term_views(a@);
        lemma_term_views(b@);
        lemma_terms_alpha_eq_pointwise(term_views(a@), term_views(b@));
    }
    if a.len() != b.len() {
        return false;
    }
    let mut i: usize = 0;
    while i < a.len()
        invariant
            i <= a@.len(),
            forall|j: int|
                0 <= j < i ==> term_alpha_eq(#[trigger] term_views(a@)[j], term_views(b@)[j]),
        decreases a@.len() - i,
    {
        proof {
            assert(decreases_to!(a@ => a@[i as int]));
        }
        if !a[i].alpha_eq(&b[i]) {
            return false;
        }
        i = i + 1;
    }
    true
}

} // verus!
