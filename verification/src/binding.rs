//! Closing and opening of terms: the traversals that turn free variables
//! into bound ones when a scope is built (`bind`), and bound variables back
//! into fresh free ones when a scope is entered (`unbind`).
//!
//! Depths count binding levels from the position being rewritten: entering
//! the body of a `Pi`, `Lam` or `Let`, the annotations of a telescope, or
//! the body of a case branch adds one level. The one asymmetry is that a
//! scope's own annotation sits outside its binding level, while a
//! telescope's annotations sit inside it, because they may refer to the
//! telescope's earlier binders.

use vstd::prelude::*;
use std::rc::Rc;
use crate::term::{
    clause_views, field_views, lemma_clause_views, lemma_field_views, lemma_term_views,
    pattern_view, term_view, term_views, Clause, ClauseView, Field, FieldView, Pattern,
    PatternView, RcPattern, RcTerm, Scope, ScopeView, Term, TermView,
};
use crate::var::{
    free_var_views, lemma_free_var_views, var_close_multi, var_open_multi, Binder, FreeVar,
    FreeVarView, FreshGen, Var,
};

verus! {

// ---------------------------------------------------------------------------
// Depth bookkeeping: the machine limit that scope depths and binder counts
// fit in the index type.
// ---------------------------------------------------------------------------
pub open spec fn term_depth_ok(t: TermView, depth: u32) -> bool
    decreases t,
{
    match t {
        TermView::Ann(a, ty) => term_depth_ok(*a, depth) && term_depth_ok(*ty, depth),
        TermView::Universe(_) => true,
        TermView::Literal(_) => true,
        TermView::Var(_, _) => true,
        TermView::Extern(_, ty) => term_depth_ok(*ty, depth),
        TermView::Pi(s) => scope_depth_ok(s, depth),
        TermView::Lam(s) => scope_depth_ok(s, depth),
        TermView::App(f, a) => term_depth_ok(*f, depth) && term_depth_ok(*a, depth),
        TermView::If(c, a, b) => term_depth_ok(*c, depth) && term_depth_ok(*a, depth)
            && term_depth_ok(*b, depth),
        TermView::RecordType(fs) => depth < u32::MAX && fields_depth_ok(fs, (depth + 1) as u32),
        TermView::Record(fs) => depth < u32::MAX && fields_depth_ok(fs, (depth + 1) as u32),
        TermView::Proj(e, _) => term_depth_ok(*e, depth),
        TermView::Case(s, cs) => term_depth_ok(*s, depth) && depth < u32::MAX && clauses_depth_ok(
            cs,
            depth,
        ),
        TermView::Array(es) => terms_depth_ok(es, depth),
        TermView::Let(s) => scope_depth_ok(s, depth),
    }
}

pub open spec fn scope_depth_ok(s: ScopeView, depth: u32) -> bool
    decreases s,
{
    term_depth_ok(*s.ann, depth) && depth < u32::MAX && term_depth_ok(
        *s.body,
        (depth + 1) as u32,
    )
}

pub open spec fn pattern_depth_ok(p: PatternView, depth: u32) -> bool
    decreases p,
{
    match p {
        PatternView::Ann(q, t) => pattern_depth_ok(*q, depth) && term_depth_ok(*t, depth),
        PatternView::Binder(_) => true,
        PatternView::Var(_, _) => true,
        PatternView::Literal(_) => true,
    }
}

pub open spec fn fields_depth_ok(fs: Seq<FieldView>, depth: u32) -> bool
    decreases fs,
{
    fs.len() == 0 || (fields_depth_ok(fs.drop_last(), depth) && term_depth_ok(
        fs.last().ann,
        depth,
    ))
}

pub open spec fn clauses_depth_ok(cs: Seq<ClauseView>, depth: u32) -> bool
    decreases cs,
{
    cs.len() == 0 || (clauses_depth_ok(cs.drop_last(), depth) && pattern_depth_ok(
        cs.last().pattern,
        depth,
    ) && term_depth_ok(cs.last().body, (depth + 1) as u32))
}

pub open spec fn terms_depth_ok(ts: Seq<TermView>, depth: u32) -> bool
    decreases ts,
{
    ts.len() == 0 || (terms_depth_ok(ts.drop_last(), depth) && term_depth_ok(ts.last(), depth))
}

pub proof fn lemma_fields_depth_ok(fs: Seq<FieldView>, depth: u32)
    ensures
        fields_depth_ok(fs, depth) <==> forall|i: int|
            0 <= i < fs.len() ==> term_depth_ok((#[trigger] fs[i]).ann, depth),
    decreases fs,
{
    if fs.len() > 0 {
        lemma_fields_depth_ok(fs.drop_last(), depth);
        assert forall|i: int| 0 <= i < fs.len() - 1 implies fs.drop_last()[i] == fs[i] by {}
        assert(fs.last() == fs[fs.len() - 1]);
    }
}

pub proof fn lemma_clauses_depth_ok(cs: Seq<ClauseView>, depth: u32)
    ensures
        clauses_depth_ok(cs, depth) <==> forall|i: int|
            0 <= i < cs.len() ==> pattern_depth_ok((#[trigger] cs[i]).pattern, depth)
                && term_depth_ok(cs[i].body, (depth + 1) as u32),
    decreases cs,
{
    if cs.len() > 0 {
        lemma_clauses_depth_ok(cs.drop_last(), depth);
        assert forall|i: int| 0 <= i < cs.len() - 1 implies cs.drop_last()[i] == cs[i] by {}
        assert(cs.last() == cs[cs.len() - 1]);
    }
}

pub proof fn lemma_terms_depth_ok(ts: Seq<TermView>, depth: u32)
    ensures
        terms_depth_ok(ts, depth) <==> forall|i: int|
            0 <= i < ts.len() ==> term_depth_ok(#[trigger] ts[i], depth),
    decreases ts,
{
    if ts.len() > 0 {
        lemma_terms_depth_ok(ts.drop_last(), depth);
        assert forall|i: int| 0 <= i < ts.len() - 1 implies ts.drop_last()[i] == ts[i] by {}
        assert(ts.last() == ts[ts.len() - 1]);
    }
}

// ---------------------------------------------------------------------------
// Closing: rewriting free occurrences of a pattern's names into bound
// variables addressed relative to `depth`.
// ---------------------------------------------------------------------------
pub open spec fn term_close(t: TermView, depth: u32, binders: Seq<FreeVarView>) -> TermView
    decreases t,
{
    match t {
        TermView::Ann(a, ty) => TermView::Ann(
            Box::new(term_close(*a, depth, binders)),
            Box::new(term_close(*ty, depth, binders)),
        ),
        TermView::Universe(_) => t,
        TermView::Literal(_) => t,
        TermView::Var(v, shift) => TermView::Var(var_close_multi(v, depth, binders), shift),
        TermView::Extern(name, ty) => TermView::Extern(
            name,
            Box::new(term_close(*ty, depth, binders)),
        ),
        TermView::Pi(s) => TermView::Pi(scope_close(s, depth, binders)),
        TermView::Lam(s) => TermView::Lam(scope_close(s, depth, binders)),
        TermView::App(f, a) => TermView::App(
            Box::new(term_close(*f, depth, binders)),
            Box::new(term_close(*a, depth, binders)),
        ),
        TermView::If(c, a, b) => TermView::If(
            Box::new(term_close(*c, depth, binders)),
            Box::new(term_close(*a, depth, binders)),
            Box::new(term_close(*b, depth, binders)),
        ),
        TermView::RecordType(fs) => TermView::RecordType(
            fields_close(fs, (depth + 1) as u32, binders),
        ),
        TermView::Record(fs) => TermView::Record(fields_close(fs, (depth + 1) as u32, binders)),
        TermView::Proj(e, label) => TermView::Proj(
            Box::new(term_close(*e, depth, binders)),
            label,
        ),
        TermView::Case(s, cs) => TermView::Case(
            Box::new(term_close(*s, depth, binders)),
            clauses_close(cs, depth, binders),
        ),
        TermView::Array(es) => TermView::Array(terms_close(es, depth, binders)),
        TermView::Let(s) => TermView::Let(scope_close(s, depth, binders)),
    }
}

pub open spec fn scope_close(s: ScopeView, depth: u32, binders: Seq<FreeVarView>) -> ScopeView
    decreases s,
{
    ScopeView {
        binder: s.binder,
        ann: Box::new(term_close(*s.ann, depth, binders)),
        body: Box::new(term_close(*s.body, (depth + 1) as u32, binders)),
    }
}

pub open spec fn pattern_close(p: PatternView, depth: u32, binders: Seq<FreeVarView>)
    -> PatternView
    decreases p,
{
    match p {
        PatternView::Ann(q, t) => PatternView::Ann(
            Box::new(pattern_close(*q, depth, binders)),
            Box::new(term_close(*t, depth, binders)),
        ),
        PatternView::Binder(_) => p,
        PatternView::Var(v, shift) => PatternView::Var(var_close_multi(v, depth, binders), shift),
        PatternView::Literal(_) => p,
    }
}

pub open spec fn fields_close(fs: Seq<FieldView>, depth: u32, binders: Seq<FreeVarView>) -> Seq<
    FieldView,
>
    decreases fs,
{
    if fs.len() == 0 {
        Seq::empty()
    } else {
        fields_close(fs.drop_last(), depth, binders).push(
            FieldView {
                label: fs.last().label,
                binder: fs.last().binder,
                ann: term_close(fs.last().ann, depth, binders),
            },
        )
    }
}

pub open spec fn clauses_close(cs: Seq<ClauseView>, depth: u32, binders: Seq<FreeVarView>) -> Seq<
    ClauseView,
>
    decreases cs,
{
    if cs.len() == 0 {
        Seq::empty()
    } else {
        clauses_close(cs.drop_last(), depth, binders).push(
            ClauseView {
                pattern: pattern_close(cs.last().pattern, depth, binders),
                body: term_close(cs.last().body, (depth + 1) as u32, binders),
            },
        )
    }
}

pub open spec fn terms_close(ts: Seq<TermView>, depth: u32, binders: Seq<FreeVarView>) -> Seq<
    TermView,
>
    decreases ts,
{
    if ts.len() == 0 {
        Seq::empty()
    } else {
        terms_close(ts.drop_last(), depth, binders).push(term_close(ts.last(), depth, binders))
    }
}

// ---------------------------------------------------------------------------
// Opening: rewriting bound variables at `depth` back into the given free
// names.
// ---------------------------------------------------------------------------
pub open spec fn term_open(t: TermView, depth: u32, names: Seq<FreeVarView>) -> TermView
    decreases t,
{
    match t {
        TermView::Ann(a, ty) => TermView::Ann(
            Box::new(term_open(*a, depth, names)),
            Box::new(term_open(*ty, depth, names)),
        ),
        TermView::Universe(_) => t,
        TermView::Literal(_) => t,
        TermView::Var(v, shift) => TermView::Var(var_open_multi(v, depth, names), shift),
        TermView::Extern(name, ty) => TermView::Extern(
            name,
            Box::new(term_open(*ty, depth, names)),
        ),
        TermView::Pi(s) => TermView::Pi(scope_open(s, depth, names)),
        TermView::Lam(s) => TermView::Lam(scope_open(s, depth, names)),
        TermView::App(f, a) => TermView::App(
            Box::new(term_open(*f, depth, names)),
            Box::new(term_open(*a, depth, names)),
        ),
        TermView::If(c, a, b) => TermView::If(
            Box::new(term_open(*c, depth, names)),
            Box::new(term_open(*a, depth, names)),
            Box::new(term_open(*b, depth, names)),
        ),
        TermView::RecordType(fs) => TermView::RecordType(
            fields_open(fs, (depth + 1) as u32, names),
        ),
        TermView::Record(fs) => TermView::Record(fields_open(fs, (depth + 1) as u32, names)),
        TermView::Proj(e, label) => TermView::Proj(Box::new(term_open(*e, depth, names)), label),
        TermView::Case(s, cs) => TermView::Case(
            Box::new(term_open(*s, depth, names)),
            clauses_open(cs, depth, names),
        ),
        TermView::Array(es) => TermView::Array(terms_open(es, depth, names)),
        TermView::Let(s) => TermView::Let(scope_open(s, depth, names)),
    }
}

pub open spec fn scope_open(s: ScopeView, depth: u32, names: Seq<FreeVarView>) -> ScopeView
    decreases s,
{
    ScopeView {
        binder: s.binder,
        ann: Box::new(term_open(*s.ann, depth, names)),
        body: Box::new(term_open(*s.body, (depth + 1) as u32, names)),
    }
}

pub open spec fn pattern_open(p: PatternView, depth: u32, names: Seq<FreeVarView>) -> PatternView
    decreases p,
{
    match p {
        PatternView::Ann(q, t) => PatternView::Ann(
            Box::new(pattern_open(*q, depth, names)),
            Box::new(term_open(*t, depth, names)),
        ),
        PatternView::Binder(_) => p,
        PatternView::Var(v, shift) => PatternView::Var(var_open_multi(v, depth, names), shift),
        PatternView::Literal(_) => p,
    }
}

pub open spec fn fields_open(fs: Seq<FieldView>, depth: u32, names: Seq<FreeVarView>) -> Seq<
    FieldView,
>
    decreases fs,
{
    if fs.len() == 0 {
        Seq::empty()
    } else {
        fields_open(fs.drop_last(), depth, names).push(
            FieldView {
                label: fs.last().label,
                binder: fs.last().binder,
                ann: term_open(fs.last().ann, depth, names),
            },
        )
    }
}

pub open spec fn clauses_open(cs: Seq<ClauseView>, depth: u32, names: Seq<FreeVarView>) -> Seq<
    ClauseView,
>
    decreases cs,
{
    if cs.len() == 0 {
        Seq::empty()
    } else {
        clauses_open(cs.drop_last(), depth, names).push(
            ClauseView {
                pattern: pattern_open(cs.last().pattern, depth, names),
                body: term_open(cs.last().body, (depth + 1) as u32, names),
            },
        )
    }
}

pub open spec fn terms_open(ts: Seq<TermView>, depth: u32, names: Seq<FreeVarView>) -> Seq<
    TermView,
>
    decreases ts,
{
    if ts.len() == 0 {
        Seq::empty()
    } else {
        terms_open(ts.drop_last(), depth, names).push(term_open(ts.last(), depth, names))
    }
}

pub proof fn lemma_fields_close(fs: Seq<FieldView>, depth: u32, binders: Seq<FreeVarView>)
    ensures
        fields_close(fs, depth, binders).len() == fs.len(),
        forall|i: int|
            0 <= i < fs.len() ==> fields_close(fs, depth, binders)[i] == (FieldView {
                label: (#[trigger] fs[i]).label,
                binder: fs[i].binder,
                ann: term_close(fs[i].ann, depth, binders),
            }),
    decreases fs,
{
    if fs.len() > 0 {
        lemma_fields_close(fs.drop_last(), depth, binders);
        assert forall|i: int| 0 <= i < fs.len() - 1 implies fs.drop_last()[i] == fs[i] by {}
        assert(fs.last() == fs[fs.len() - 1]);
    }
}

pub proof fn lemma_clauses_close(cs: Seq<ClauseView>, depth: u32, binders: Seq<FreeVarView>)
    ensures
        clauses_close(cs, depth, binders).len() == cs.len(),
        forall|i: int|
            0 <= i < cs.len() ==> clauses_close(cs, depth, binders)[i] == (ClauseView {
                pattern: pattern_close((#[trigger] cs[i]).pattern, depth, binders),
                body: term_close(cs[i].body, (depth + 1) as u32, binders),
            }),
    decreases cs,
{
    if cs.len() > 0 {
        lemma_clauses_close(cs.drop_last(), depth, binders);
        assert forall|i: int| 0 <= i < cs.len() - 1 implies cs.drop_last()[i] == cs[i] by {}
        assert(cs.last() == cs[cs.len() - 1]);
    }
}

pub proof fn lemma_terms_close(ts: Seq<TermView>, depth: u32, binders: Seq<FreeVarView>)
    ensures
        terms_close(ts, depth, binders).len() == ts.len(),
        forall|i: int|
            0 <= i < ts.len() ==> terms_close(ts, depth, binders)[i] == term_close(
                #[trigger] ts[i],
                depth,
                binders,
            ),
    decreases ts,
{
    if ts.len() > 0 {
        lemma_terms_close(ts.drop_last(), depth, binders);
        assert forall|i: int| 0 <= i < ts.len() - 1 implies ts.drop_last()[i] == ts[i] by {}
        assert(ts.last() == ts[ts.len() - 1]);
    }
}

pub proof fn lemma_fields_open(fs: Seq<FieldView>, depth: u32, names: Seq<FreeVarView>)
    ensures
        fields_open(fs, depth, names).len() == fs.len(),
        forall|i: int|
            0 <= i < fs.len() ==> fields_open(fs, depth, names)[i] == (FieldView {
                label: (#[trigger] fs[i]).label,
                binder: fs[i].binder,
                ann: term_open(fs[i].ann, depth, names),
            }),
    decreases fs,
{
    if fs.len() > 0 {
        lemma_fields_open(fs.drop_last(), depth, names);
        assert forall|i: int| 0 <= i < fs.len() - 1 implies fs.drop_last()[i] == fs[i] by {}
        assert(fs.last() == fs[fs.len() - 1]);
    }
}

pub proof fn lemma_clauses_open(cs: Seq<ClauseView>, depth: u32, names: Seq<FreeVarView>)
    ensures
        clauses_open(cs, depth, names).len() == cs.len(),
        forall|i: int|
            0 <= i < cs.len() ==> clauses_open(cs, depth, names)[i] == (ClauseView {
                pattern: pattern_open((#[trigger] cs[i]).pattern, depth, names),
                body: term_open(cs[i].body, (depth + 1) as u32, names),
            }),
    decreases cs,
{
    if cs.len() > 0 {
        lemma_clauses_open(cs.drop_last(), depth, names);
        assert forall|i: int| 0 <= i < cs.len() - 1 implies cs.drop_last()[i] == cs[i] by {}
        assert(cs.last() == cs[cs.len() - 1]);
    }
}

pub proof fn lemma_terms_open(ts: Seq<TermView>, depth: u32, names: Seq<FreeVarView>)
    ensures
        terms_open(ts, depth, names).len() == ts.len(),
        forall|i: int|
            0 <= i < ts.len() ==> terms_open(ts, depth, names)[i] == term_open(
                #[trigger] ts[i],
                depth,
                names,
            ),
    decreases ts,
{
    if ts.len() > 0 {
        lemma_terms_open(ts.drop_last(), depth, names);
        assert forall|i: int| 0 <= i < ts.len() - 1 implies ts.drop_last()[i] == ts[i] by {}
        assert(ts.last() == ts[ts.len() - 1]);
    }
}

impl RcTerm {
    /// Rewrite, throughout this term, free occurrences of the given binders'
    /// names into bound variables addressed relative to `depth`.
    pub fn close_at(&self, depth: u32, binders: &Vec<FreeVar>) -> (r: RcTerm)
        requires
            term_depth_ok(self@, depth),
            binders@.len() <= u32::MAX,
        ensures
            r@ == term_close(self@, depth, free_var_views(binders@)),
        decreases *self,
    {
        let ghost bs = free_var_views(binders@);
        match &*self.inner {
            Term::Ann(a, ty) => RcTerm::new(
                Term::Ann(a.close_at(depth, binders), ty.close_at(depth, binders)),
            ),
            Term::Universe(_) => self.clone(),
            Term::Literal(_) => self.clone(),
            Term::Var(v, shift) => {
                let mut v2 = v.clone();
                v2.close_multi(depth, binders);
                RcTerm::new(Term::Var(v2, *shift))
            },
            Term::Extern(name, ty) => RcTerm::new(
                Term::Extern(name.clone(), ty.close_at(depth, binders)),
            ),
            Term::Pi(s) => RcTerm::new(Term::Pi(scope_close_exec(s, depth, binders))),
            Term::Lam(s) => RcTerm::new(Term::Lam(scope_close_exec(s, depth, binders))),
            Term::App(f, a) => RcTerm::new(
                Term::App(f.close_at(depth, binders), a.close_at(depth, binders)),
            ),
            Term::If(c, a, b) => RcTerm::new(
                Term::If(
                    c.close_at(depth, binders),
                    a.close_at(depth, binders),
                    b.close_at(depth, binders),
                ),
            ),
            Term::RecordType(fields) => RcTerm::new(
                Term::RecordType(fields_close_exec(fields, depth + 1, binders)),
            ),
            Term::Record(fields) => RcTerm::new(
                Term::Record(fields_close_exec(fields, depth + 1, binders)),
            ),
            Term::Proj(e, label) => RcTerm::new(
                Term::Proj(e.close_at(depth, binders), label.clone()),
            ),
            Term::Case(scrutinee, clauses) => RcTerm::new(
                Term::Case(
                    scrutinee.close_at(depth, binders),
                    clauses_close_exec(clauses, depth, binders),
                ),
            ),
            Term::Array(elems) => RcTerm::new(Term::Array(terms_close_exec(elems, depth, binders))),
            Term::Let(s) => RcTerm::new(Term::Let(scope_close_exec(s, depth, binders))),
        }
    }

    /// Rewrite, throughout this term, bound variables addressed relative to
    /// `depth` back into free occurrences of the given names.
    pub fn open_at(&self, depth: u32, names: &Vec<FreeVar>) -> (r: RcTerm)
        requires
            term_depth_ok(self@, depth),
        ensures
            r@ == term_open(self@, depth, free_var_views(names@)),
        decreases *self,
    {
        match &*self.inner {
            Term::Ann(a, ty) => RcTerm::new(
                Term::Ann(a.open_at(depth, names), ty.open_at(depth, names)),
            ),
            Term::Universe(_) => self.clone(),
            Term::Literal(_) => self.clone(),
            Term::Var(v, shift) => {
                let mut v2 = v.clone();
                v2.open_multi(depth, names);
                RcTerm::new(Term::Var(v2, *shift))
            },
            Term::Extern(name, ty) => RcTerm::new(
                Term::Extern(name.clone(), ty.open_at(depth, names)),
            ),
            Term::Pi(s) => RcTerm::new(Term::Pi(scope_open_exec(s, depth, names))),
            Term::Lam(s) => RcTerm::new(Term::Lam(scope_open_exec(s, depth, names))),
            Term::App(f, a) => RcTerm::new(
                Term::App(f.open_at(depth, names), a.open_at(depth, names)),
            ),
            Term::If(c, a, b) => RcTerm::new(
                Term::If(
                    c.open_at(depth, names),
                    a.open_at(depth, names),
                    b.open_at(depth, names),
                ),
            ),
            Term::RecordType(fields) => RcTerm::new(
                Term::RecordType(fields_open_exec(fields, depth + 1, names)),
            ),
            Term::Record(fields) => RcTerm::new(
                Term::Record(fields_open_exec(fields, depth + 1, names)),
            ),
            Term::Proj(e, label) => RcTerm::new(
                Term::Proj(e.open_at(depth, names), label.clone()),
            ),
            Term::Case(scrutinee, clauses) => RcTerm::new(
                Term::Case(
                    scrutinee.open_at(depth, names),
                    clauses_open_exec(clauses, depth, names),
                ),
            ),
            Term::Array(elems) => RcTerm::new(Term::Array(terms_open_exec(elems, depth, names))),
            Term::Let(s) => RcTerm::new(Term::Let(scope_open_exec(s, depth, names))),
        }
    }
}

impl RcPattern {
    /// Close the embedded terms and variables of this pattern; the pattern's
    /// own binding positions are left untouched.
    pub fn close_at(&self, depth: u32, binders: &Vec<FreeVar>) -> (r: RcPattern)
        requires
            pattern_depth_ok(self@, depth),
            binders@.len() <= u32::MAX,
        ensures
            r@ == pattern_close(self@, depth, free_var_views(binders@)),
        decreases *self,
    {
        match &*self.inner {
            Pattern::Ann(q, t) => RcPattern::new(
                Pattern::Ann(q.close_at(depth, binders), t.close_at(depth, binders)),
            ),
            Pattern::Binder(_) => self.clone(),
            Pattern::Var(v, shift) => {
                let mut v2 = v.clone();
                v2.close_multi(depth, binders);
                RcPattern::new(Pattern::Var(v2, *shift))
            },
            Pattern::Literal(_) => self.clone(),
        }
    }

    /// Open the embedded terms and variables of this pattern; the pattern's
    /// own binding positions are left untouched.
    pub fn open_at(&self, depth: u32, names: &Vec<FreeVar>) -> (r: RcPattern)
        requires
            pattern_depth_ok(self@, depth),
        ensures
            r@ == pattern_open(self@, depth, free_var_views(names@)),
        decreases *self,
    {
        match &*self.inner {
            Pattern::Ann(q, t) => RcPattern::new(
                Pattern::Ann(q.open_at(depth, names), t.open_at(depth, names)),
            ),
            Pattern::Binder(_) => self.clone(),
            Pattern::Var(v, shift) => {
                let mut v2 = v.clone();
                v2.open_multi(depth, names);
                RcPattern::new(Pattern::Var(v2, *shift))
            },
            Pattern::Literal(_) => self.clone(),
        }
    }
}

fn scope_close_exec(s: &Scope, depth: u32, binders: &Vec<FreeVar>) -> (r: Scope)
    requires
        scope_depth_ok(s@, depth),
        binders@.len() <= u32::MAX,
    ensures
        r@ == scope_close(s@, depth, free_var_views(binders@)),
    decreases *s,
{
    Scope {
        binder: s.binder.clone(),
        ann: s.ann.close_at(depth, binders),
        body: s.body.close_at(depth + 1, binders),
    }
}

fn scope_open_exec(s: &Scope, depth: u32, names: &Vec<FreeVar>) -> (r: Scope)
    requires
        scope_depth_ok(s@, depth),
    ensures
        r@ == scope_open(s@, depth, free_var_views(names@)),
    decreases *s,
{
    Scope {
        binder: s.binder.clone(),
        ann: s.ann.open_at(depth, names),
        body: s.body.open_at(depth + 1, names),
    }
}

#[verifier::loop_isolation(false)]
fn fields_close_exec(fields: &Vec<Field>, depth: u32, binders: &Vec<FreeVar>) -> (r: Vec<Field>)
    requires
        fields_depth_ok(field_views(fields@), depth),
        binders@.len() <= u32::MAX,
    ensures
        field_views(r@) == fields_close(field_views(fields@), depth, free_var_views(binders@)),
    decreases fields@,
{
    let ghost bs = free_var_views(binders@);
    proof {
        lemma_field_views(fields@);
        lemma_fields_depth_ok(field_views(fields@), depth);
    }
    let mut out: Vec<Field> = Vec::new();
    let mut i: usize = 0;
    while i < fields.len()
        invariant
            i <= fields@.len(),
            out@.len() == i,
            forall|j: int|
                0 <= j < i ==> (#[trigger] out@[j]).label@ == fields@[j].label@ && out@[j].binder@
                    == fields@[j].binder@ && term_view(*out@[j].ann.inner) == term_close(
                    term_view(*fields@[j].ann.inner),
                    depth,
                    bs,
                ),
        decreases fields@.len() - i,
    {
        proof {
            assert(decreases_to!(fields@ => fields@[i as int]));
            assert(field_views(fields@)[i as int] == (FieldView {
                label: fields@[i as int].label@,
                binder: fields@[i as int].binder@,
                ann: term_view(*fields@[i as int].ann.inner),
            }));
        }
        let f = &fields[i];
        let newf = Field {
            label: f.label.clone(),
            binder: f.binder.clone(),
            ann: f.ann.close_at(depth, binders),
        };
        out.push(newf);
        i = i + 1;
    }
    proof {
        lemma_field_views(out@);
        lemma_fields_close(field_views(fields@), depth, bs);
        assert forall|k: int|
            0 <= k < out@.len() implies field_views(out@)[k] == fields_close(
            field_views(fields@),
            depth,
            bs,
        )[k] by {
            assert(field_views(out@)[k] == (FieldView {
                label: out@[k].label@,
                binder: out@[k].binder@,
                ann: term_view(*out@[k].ann.inner),
            }));
            assert(field_views(fields@)[k] == (FieldView {
                label: fields@[k].label@,
                binder: fields@[k].binder@,
                ann: term_view(*fields@[k].ann.inner),
            }));
        }
        assert(field_views(out@) =~= fields_close(field_views(fields@), depth, bs));
    }
    out
}

#[verifier::loop_isolation(false)]
fn fields_open_exec(fields: &Vec<Field>, depth: u32, names: &Vec<FreeVar>) -> (r: Vec<Field>)
    requires
        fields_depth_ok(field_views(fields@), depth),
    ensures
        field_views(r@) == fields_open(field_views(fields@), depth, free_var_views(names@)),
    decreases fields@,
{
    let ghost ns = free_var_views(names@);
    proof {
        lemma_field_views(fields@);
        lemma_fields_depth_ok(field_views(fields@), depth);
    }
    let mut out: Vec<Field> = Vec::new();
    let mut i: usize = 0;
    while i < fields.len()
        invariant
            i <= fields@.len(),
            out@.len() == i,
            forall|j: int|
                0 <= j < i ==> (#[trigger] out@[j]).label@ == fields@[j].label@ && out@[j].binder@
                    == fields@[j].binder@ && term_view(*out@[j].ann.inner) == term_open(
                    term_view(*fields@[j].ann.inner),
                    depth,
                    ns,
                ),
        decreases fields@.len() - i,
    {
        proof {
            assert(decreases_to!(fields@ => fields@[i as int]));
            assert(field_views(fields@)[i as int] == (FieldView {
                label: fields@[i as int].label@,
                binder: fields@[i as int].binder@,
                ann: term_view(*fields@[i as int].ann.inner),
            }));
        }
        let f = &fields[i];
        let newf = Field {
            label: f.label.clone(),
            binder: f.binder.clone(),
            ann: f.ann.open_at(depth, names),
        };
        out.push(newf);
        i = i + 1;
    }
    proof {
        lemma_field_views(out@);
        lemma_fields_open(field_views(fields@), depth, ns);
        assert forall|k: int|
            0 <= k < out@.len() implies field_views(out@)[k] == fields_open(
            field_views(fields@),
            depth,
            ns,
        )[k] by {
            assert(field_views(out@)[k] == (FieldView {
                label: out@[k].label@,
                binder: out@[k].binder@,
                ann: term_view(*out@[k].ann.inner),
            }));
            assert(field_views(fields@)[k] == (FieldView {
                label: fields@[k].label@,
                binder: fields@[k].binder@,
                ann: term_view(*fields@[k].ann.inner),
            }));
        }
        assert(field_views(out@) =~= fields_open(field_views(fields@), depth, ns));
    }
    out
}

#[verifier::loop_isolation(false)]
fn clauses_close_exec(clauses: &Vec<Clause>, depth: u32, binders: &Vec<FreeVar>) -> (r: Vec<
    Clause,
>)
    requires
        clauses_depth_ok(clause_views(clauses@), depth),
        depth < u32::MAX,
        binders@.len() <= u32::MAX,
    ensures
        clause_views(r@) == clauses_close(clause_views(clauses@), depth, free_var_views(binders@)),
    decreases clauses@,
{
    let ghost bs = free_var_views(binders@);
    proof {
        lemma_clause_views(clauses@);
        lemma_clauses_depth_ok(clause_views(clauses@), depth);
    }
    let mut out: Vec<Clause> = Vec::new();
    let mut i: usize = 0;
    while i < clauses.len()
        invariant
            i <= clauses@.len(),
            out@.len() == i,
            forall|j: int|
                0 <= j < i ==> pattern_view(*(#[trigger] out@[j]).pattern.inner) == pattern_close(
                    pattern_view(*clauses@[j].pattern.inner),
                    depth,
                    bs,
                ) && term_view(*out@[j].body.inner) == term_close(
                    term_view(*clauses@[j].body.inner),
                    (depth + 1) as u32,
                    bs,
                ),
        decreases clauses@.len() - i,
    {
        proof {
            assert(decreases_to!(clauses@ => clauses@[i as int]));
            assert(clause_views(clauses@)[i as int].pattern == pattern_view(
                *clauses@[i as int].pattern.inner,
            ));
            assert(clause_views(clauses@)[i as int].body == term_view(
                *clauses@[i as int].body.inner,
            ));
        }
        let c = &clauses[i];
        let newc = Clause {
            pattern: c.pattern.close_at(depth, binders),
            body: c.body.close_at(depth + 1, binders),
        };
        out.push(newc);
        i = i + 1;
    }
    proof {
        lemma_clause_views(out@);
        lemma_clauses_close(clause_views(clauses@), depth, bs);
        assert forall|k: int|
            0 <= k < out@.len() implies clause_views(out@)[k] == clauses_close(
            clause_views(clauses@),
            depth,
            bs,
        )[k] by {
            assert(clause_views(out@)[k] == (ClauseView {
                pattern: pattern_view(*out@[k].pattern.inner),
                body: term_view(*out@[k].body.inner),
            }));
            assert(clause_views(clauses@)[k] == (ClauseView {
                pattern: pattern_view(*clauses@[k].pattern.inner),
                body: term_view(*clauses@[k].body.inner),
            }));
        }
        assert(clause_views(out@) =~= clauses_close(clause_views(clauses@), depth, bs));
    }
    out
}

#[verifier::loop_isolation(false)]
fn clauses_open_exec(clauses: &Vec<Clause>, depth: u32, names: &Vec<FreeVar>) -> (r: Vec<Clause>)
    requires
        clauses_depth_ok(clause_views(clauses@), depth),
        depth < u32::MAX,
    ensures
        clause_views(r@) == clauses_open(clause_views(clauses@), depth, free_var_views(names@)),
    decreases clauses@,
{
    let ghost ns = free_var_views(names@);
    proof {
        lemma_clause_views(clauses@);
        lemma_clauses_depth_ok(clause_views(clauses@), depth);
    }
    let mut out: Vec<Clause> = Vec::new();
    let mut i: usize = 0;
    while i < clauses.len()
        invariant
            i <= clauses@.len(),
            out@.len() == i,
            forall|j: int|
                0 <= j < i ==> pattern_view(*(#[trigger] out@[j]).pattern.inner) == pattern_open(
                    pattern_view(*clauses@[j].pattern.inner),
                    depth,
                    ns,
                ) && term_view(*out@[j].body.inner) == term_open(
                    term_view(*clauses@[j].body.inner),
                    (depth + 1) as u32,
                    ns,
                ),
        decreases clauses@.len() - i,
    {
        proof {
            assert(decreases_to!(clauses@ => clauses@[i as int]));
            assert(clause_views(clauses@)[i as int].pattern == pattern_view(
                *clauses@[i as int].pattern.inner,
            ));
            assert(clause_views(clauses@)[i as int].body == term_view(
                *clauses@[i as int].body.inner,
            ));
        }
        let c = &clauses[i];
        let newc = Clause {
            pattern: c.pattern.open_at(depth, names),
            body: c.body.open_at(depth + 1, names),
        };
        out.push(newc);
        i = i + 1;
    }
    proof {
        lemma_clause_views(out@);
        lemma_clauses_open(clause_views(clauses@), depth, ns);
        assert forall|k: int|
            0 <= k < out@.len() implies clause_views(out@)[k] == clauses_open(
            clause_views(clauses@),
            depth,
            ns,
        )[k] by {
            assert(clause_views(out@)[k] == (ClauseView {
                pattern: pattern_view(*out@[k].pattern.inner),
                body: term_view(*out@[k].body.inner),
            }));
            assert(clause_views(clauses@)[k] == (ClauseView {
                pattern: pattern_view(*clauses@[k].pattern.inner),
                body: term_view(*clauses@[k].body.inner),
            }));
        }
        assert(clause_views(out@) =~= clauses_open(clause_views(clauses@), depth, ns));
    }
    out
}

#[verifier::loop_isolation(false)]
fn terms_close_exec(elems: &Vec<RcTerm>, depth: u32, binders: &Vec<FreeVar>) -> (r: Vec<RcTerm>)
    requires
        terms_depth_ok(term_views(elems@), depth),
        binders@.len() <= u32::MAX,
    ensures
        term_views(r@) == terms_close(term_views(elems@), depth, free_var_views(binders@)),
    decreases elems@,
{
    let ghost bs = free_var_views(binders@);
    proof {
        lemma_term_views(elems@);
        lemma_terms_depth_ok(term_views(elems@), depth);
    }
    let mut out: Vec<RcTerm> = Vec::new();
    let mut i: usize = 0;
    while i < elems.len()
        invariant
            i <= elems@.len(),
            out@.len() == i,
            forall|j: int|
                0 <= j < i ==> term_view(*(#[trigger] out@[j]).inner) == term_close(
                    term_view(*elems@[j].inner),
                    depth,
                    bs,
                ),
        decreases elems@.len() - i,
    {
        proof {
            assert(decreases_to!(elems@ => elems@[i as int]));
            assert(term_views(elems@)[i as int] == term_view(*elems@[i as int].inner));
        }
        let e = elems[i].close_at(depth, binders);
        out.push(e);
        i = i + 1;
    }
    proof {
        lemma_term_views(out@);
        lemma_terms_close(term_views(elems@), depth, bs);
        assert forall|k: int|
            0 <= k < out@.len() implies term_views(out@)[k] == terms_close(
            term_views(elems@),
            depth,
            bs,
        )[k] by {
            assert(term_views(out@)[k] == term_view(*out@[k].inner));
            assert(term_views(elems@)[k] == term_view(*elems@[k].inner));
        }
        assert(term_views(out@) =~= terms_close(term_views(elems@), depth, bs));
    }
    out
}

#[verifier::loop_isolation(false)]
fn terms_open_exec(elems: &Vec<RcTerm>, depth: u32, names: &Vec<FreeVar>) -> (r: Vec<RcTerm>)
    requires
        terms_depth_ok(term_views(elems@), depth),
    ensures
        term_views(r@) == terms_open(term_views(elems@), depth, free_var_views(names@)),
    decreases elems@,
{
    let ghost ns = free_var_views(names@);
    proof {
        lemma_term_views(elems@);
        lemma_terms_depth_ok(term_views(elems@), depth);
    }
    let mut out: Vec<RcTerm> = Vec::new();
    let mut i: usize = 0;
    while i < elems.len()
        invariant
            i <= elems@.len(),
            out@.len() == i,
            forall|j: int|
                0 <= j < i ==> term_view(*(#[trigger] out@[j]).inner) == term_open(
                    term_view(*elems@[j].inner),
                    depth,
                    ns,
                ),
        decreases elems@.len() - i,
    {
        proof {
            assert(decreases_to!(elems@ => elems@[i as int]));
            assert(term_views(elems@)[i as int] == term_view(*elems@[i as int].inner));
        }
        let e = elems[i].open_at(depth, names);
        out.push(e);
        i = i + 1;
    }
    proof {
        lemma_term_views(out@);
        lemma_terms_open(term_views(elems@), depth, ns);
        assert forall|k: int|
            0 <= k < out@.len() implies term_views(out@)[k] == terms_open(
            term_views(elems@),
            depth,
            ns,
        )[k] by {
            assert(term_views(out@)[k] == term_view(*out@[k].inner));
            assert(term_views(elems@)[k] == term_view(*elems@[k].inner));
        }
        assert(term_views(out@) =~= terms_open(term_views(elems@), depth, ns));
    }
    out
}

// ---------------------------------------------------------------------------
// The scope combinator: bind closes a body over a pattern's names, unbind
// opens it again with fresh names.
// ---------------------------------------------------------------------------
/// The names declared by a pattern, in traversal order.
pub open spec fn pattern_binders(p: PatternView) -> Seq<FreeVarView>
    decreases p,
{
    match p {
        PatternView::Ann(q, _) => pattern_binders(*q),
        PatternView::Binder(b) => seq![b],
        PatternView::Var(_, _) => Seq::empty(),
        PatternView::Literal(_) => Seq::empty(),
    }
}

/// A pattern with its binding positions renamed, in traversal order, to the
/// names starting at position `k` of `names`; the second component is the
/// position after the last one used.
pub open spec fn pattern_rename(p: PatternView, names: Seq<FreeVarView>, k: int) -> (
    PatternView,
    int,
)
    decreases p,
{
    match p {
        PatternView::Ann(q, t) => {
            let (q2, k2) = pattern_rename(*q, names, k);
            (PatternView::Ann(Box::new(q2), t), k2)
        },
        PatternView::Binder(b) => (
            PatternView::Binder(if 0 <= k < names.len() {
                names[k]
            } else {
                b
            }),
            k + 1,
        ),
        PatternView::Var(_, _) => (p, k),
        PatternView::Literal(_) => (p, k),
    }
}

impl RcPattern {
    /// The variables bound by this pattern, in traversal order.
    pub fn binders(&self) -> (r: Vec<FreeVar>)
        ensures
            free_var_views(r@) == pattern_binders(self@),
            r@.len() == pattern_binders(self@).len(),
        decreases *self,
    {
        match &*self.inner {
            Pattern::Ann(q, _) => q.binders(),
            Pattern::Binder(b) => {
                let mut v: Vec<FreeVar> = Vec::new();
                v.push(b.0.clone());
                proof {
                    lemma_free_var_views(v@);
                    assert(free_var_views(v@) =~= pattern_binders(self@));
                }
                v
            },
            Pattern::Var(_, _) => {
                let v: Vec<FreeVar> = Vec::new();
                proof {
                    assert(free_var_views(v@) =~= pattern_binders(self@));
                }
                v
            },
            Pattern::Literal(_) => {
                let v: Vec<FreeVar> = Vec::new();
                proof {
                    assert(free_var_views(v@) =~= pattern_binders(self@));
                }
                v
            },
        }
    }

    /// Rebuild this pattern with its binding positions renamed to
    /// `names[k..]`, returning the renamed pattern and the next unused
    /// position.
    pub fn rename_binders(&self, names: &Vec<FreeVar>, k: usize) -> (r: (RcPattern, usize))
        requires
            k + pattern_binders(self@).len() <= usize::MAX,
        ensures
            r.0@ == pattern_rename(self@, free_var_views(names@), k as int).0,
            r.1 == pattern_rename(self@, free_var_views(names@), k as int).1,
        decreases *self,
    {
        proof {
            lemma_free_var_views(names@);
        }
        match &*self.inner {
            Pattern::Ann(q, t) => {
                let qr = q.rename_binders(names, k);
                (RcPattern::new(Pattern::Ann(qr.0, t.clone())), qr.1)
            },
            Pattern::Binder(b) => {
                if k < names.len() {
                    (RcPattern::new(Pattern::Binder(Binder(names[k].clone()))), k + 1)
                } else {
                    (self.clone(), k + 1)
                }
            },
            Pattern::Var(_, _) => (self.clone(), k),
            Pattern::Literal(_) => (self.clone(), k),
        }
    }
}

impl Scope {
    /// Build a scope by closing `body` over the name declared by `binder`:
    /// free occurrences of that name become bound variables at the new
    /// binding level. The annotation is not part of the body and is stored
    /// as given.
    pub fn bind(binder: Binder, ann: RcTerm, body: RcTerm) -> (r: Scope)
        requires
            term_depth_ok(body@, 0),
        ensures
            r.binder@ == binder@,
            r.ann@ == ann@,
            r.body@ == term_close(body@, 0, seq![binder@]),
    {
        let vs: Vec<FreeVar> = vec![binder.0.clone()];
        proof {
            lemma_free_var_views(vs@);
            assert(free_var_views(vs@) =~= seq![binder@]);
        }
        let closed = body.close_at(0, &vs);
        Scope { binder, ann, body: closed }
    }

    /// Enter a scope: allocate a fresh name carrying the stored binder's
    /// display name, and open the body with it, so that the bound variables
    /// of this scope become free occurrences of the fresh name.
    pub fn unbind(&self, gen: &mut FreshGen) -> (r: (Binder, RcTerm, RcTerm))
        requires
            old(gen).next_id < u64::MAX,
            term_depth_ok(self.body@, 0),
        ensures
            r.0@.id == old(gen).next_id,
            r.0@.name == self.binder@.name,
            r.1@ == self.ann@,
            r.2@ == term_open(self.body@, 0, seq![r.0@]),
            final(gen).next_id == old(gen).next_id + 1,
    {
        let fresh = gen.fresh(self.binder.0.name.clone());
        let vs: Vec<FreeVar> = vec![fresh.clone()];
        proof {
            lemma_free_var_views(vs@);
            assert(free_var_views(vs@) =~= seq![fresh@]);
        }
        let body = self.body.open_at(0, &vs);
        (Binder(fresh), self.ann.clone(), body)
    }
}

/// The binders of a telescope's entries, in order.
pub open spec fn field_binders(fs: Seq<FieldView>) -> Seq<FreeVarView>
    decreases fs,
{
    if fs.len() == 0 {
        Seq::empty()
    } else {
        field_binders(fs.drop_last()).push(fs.last().binder)
    }
}

/// A telescope built from entries with open annotations: entry k's
/// annotation is closed, at the telescope's own binding level, against the
/// binders of entries 0..k-1.
pub open spec fn nest_bind(fs: Seq<FieldView>) -> Seq<FieldView>
    decreases fs,
{
    if fs.len() == 0 {
        Seq::empty()
    } else {
        nest_bind(fs.drop_last()).push(
            FieldView {
                label: fs.last().label,
                binder: fs.last().binder,
                ann: term_close(fs.last().ann, 0, field_binders(fs.drop_last())),
            },
        )
    }
}

/// A telescope opened with the given fresh names: entry k's binder becomes
/// `names[k]`, and its annotation is opened against `names[0..k]`.
pub open spec fn nest_open(fs: Seq<FieldView>, names: Seq<FreeVarView>) -> Seq<FieldView>
    decreases fs,
{
    if fs.len() == 0 {
        Seq::empty()
    } else {
        nest_open(fs.drop_last(), names).push(
            FieldView {
                label: fs.last().label,
                binder: names[fs.len() - 1],
                ann: term_open(fs.last().ann, 0, names.take(fs.len() - 1)),
            },
        )
    }
}

/// The fresh names allocated when a telescope is opened: one per entry, in
/// order, carrying the entries' display names.
pub open spec fn nest_fresh_names(fs: Seq<FieldView>, start: u64) -> Seq<FreeVarView> {
    Seq::new(
        fs.len(),
        |k: int| FreeVarView { name: fs[k].binder.name, id: (start + k) as u64 },
    )
}

/// Build a telescope: close each entry's annotation against the binders of
/// the entries before it.
#[verifier::loop_isolation(false)]
pub fn bind_nest(entries: Vec<Field>) -> (r: Vec<Field>)
    requires
        fields_depth_ok(field_views(entries@), 0),
        entries@.len() <= u32::MAX,
    ensures
        field_views(r@) == nest_bind(field_views(entries@)),
{
    proof {
        lemma_field_views(entries@);
        lemma_fields_depth_ok(field_views(entries@), 0);
    }
    let ghost evs = field_views(entries@);
    let mut out: Vec<Field> = Vec::new();
    let mut prior: Vec<FreeVar> = Vec::new();
    let mut i: usize = 0;
    while i < entries.len()
        invariant
            i <= entries@.len(),
            out@.len() == i,
            prior@.len() == i,
            free_var_views(prior@) == field_binders(evs.take(i as int)),
            field_views(out@) == nest_bind(evs.take(i as int)),
        decreases entries@.len() - i,
    {
        proof {
            assert(evs[i as int] == (FieldView {
                label: entries@[i as int].label@,
                binder: entries@[i as int].binder@,
                ann: term_view(*entries@[i as int].ann.inner),
            }));
        }
        let e = &entries[i];
        let closed = Field {
            label: e.label.clone(),
            binder: e.binder.clone(),
            ann: e.ann.close_at(0, &prior),
        };
        let ghost out0 = out@;
        let ghost prior0 = prior@;
        out.push(closed);
        prior.push(e.binder.0.clone());
        i = i + 1;
        proof {
            assert(out@.drop_last() =~= out0);
            assert(prior@.drop_last() =~= prior0);
            assert(evs.take(i as int).drop_last() =~= evs.take(i - 1));
            assert(evs.take(i as int).last() == evs[i - 1]);
            assert(field_binders(evs.take(i as int)) =~= field_binders(evs.take(i - 1)).push(
                evs[i - 1].binder,
            ));
            assert(free_var_views(prior@) =~= field_binders(evs.take(i - 1)).push(
                evs[i - 1].binder,
            ));
            assert(field_views(out@) =~= nest_bind(evs.take(i - 1)).push(
                FieldView {
                    label: evs[i - 1].label,
                    binder: evs[i - 1].binder,
                    ann: term_close(evs[i - 1].ann, 0, field_binders(evs.take(i - 1))),
                },
            ));
            assert(field_views(out@) =~= nest_bind(evs.take(i as int)));
        }
    }
    proof {
        assert(evs.take(i as int) =~= evs);
    }
    out
}

/// Open a telescope: allocate one fresh name per entry, in order, and open
/// each entry's annotation against the names of the entries before it.
#[verifier::loop_isolation(false)]
pub fn unbind_nest(fields: &Vec<Field>, gen: &mut FreshGen) -> (r: Vec<Field>)
    requires
        fields_depth_ok(field_views(fields@), 0),
        old(gen).next_id + fields@.len() <= u64::MAX,
    ensures
        field_views(r@) == nest_open(
            field_views(fields@),
            nest_fresh_names(field_views(fields@), old(gen).next_id),
        ),
        final(gen).next_id == old(gen).next_id + fields@.len(),
{
    proof {
        lemma_field_views(fields@);
        lemma_fields_depth_ok(field_views(fields@), 0);
    }
    let ghost evs = field_views(fields@);
    let ghost start = gen.next_id;
    let ghost fresh = nest_fresh_names(evs, start);
    let mut out: Vec<Field> = Vec::new();
    let mut names: Vec<FreeVar> = Vec::new();
    let mut i: usize = 0;
    while i < fields.len()
        invariant
            i <= fields@.len(),
            out@.len() == i,
            names@.len() == i,
            gen.next_id == start + i,
            free_var_views(names@) == fresh.take(i as int),
            field_views(out@) == nest_open(evs.take(i as int), fresh),
        decreases fields@.len() - i,
    {
        proof {
            assert(evs[i as int] == (FieldView {
                label: fields@[i as int].label@,
                binder: fields@[i as int].binder@,
                ann: term_view(*fields@[i as int].ann.inner),
            }));
        }
        let f = &fields[i];
        let opened_ann = f.ann.open_at(0, &names);
        let fresh_var = gen.fresh(f.binder.0.name.clone());
        let newf = Field {
            label: f.label.clone(),
            binder: Binder(fresh_var.clone()),
            ann: opened_ann,
        };
        let ghost out0 = out@;
        let ghost names0 = names@;
        out.push(newf);
        names.push(fresh_var);
        i = i + 1;
        proof {
            assert(out@.drop_last() =~= out0);
            assert(names@.drop_last() =~= names0);
            assert(fresh[i - 1] == (FreeVarView {
                name: evs[i - 1].binder.name,
                id: (start + i - 1) as u64,
            }));
            assert(free_var_views(names@) =~= fresh.take(i as int));
            assert(evs.take(i as int).drop_last() =~= evs.take(i - 1));
            assert(evs.take(i as int).last() == evs[i - 1]);
            assert(fresh.take(i - 1) =~= free_var_views(names0));
            assert(field_views(out@) =~= nest_open(evs.take(i - 1), fresh).push(
                FieldView {
                    label: evs[i - 1].label,
                    binder: fresh[i - 1],
                    ann: term_open(evs[i - 1].ann, 0, fresh.take(i - 1)),
                },
            ));
            assert(field_views(out@) =~= nest_open(evs.take(i as int), fresh));
        }
    }
    proof {
        assert(evs.take(i as int) =~= evs);
    }
    out
}

/// The fresh names allocated when a case branch is opened: one per binding
/// position of the pattern, in traversal order, carrying the stored display
/// names.
pub open spec fn clause_fresh_names(p: PatternView, start: u64) -> Seq<FreeVarView> {
    Seq::new(
        pattern_binders(p).len(),
        |k: int| FreeVarView { name: pattern_binders(p)[k].name, id: (start + k) as u64 },
    )
}

impl Clause {
    /// Build a case branch by closing `body` over the names declared by
    /// `pattern`.
    pub fn bind(pattern: RcPattern, body: RcTerm) -> (r: Clause)
        requires
            term_depth_ok(body@, 0),
            pattern_binders(pattern@).len() <= u32::MAX,
        ensures
            r.pattern@ == pattern@,
            r.body@ == term_close(body@, 0, pattern_binders(pattern@)),
    {
        let bs = pattern.binders();
        let closed = body.close_at(0, &bs);
        Clause { pattern, body: closed }
    }

    /// Enter a case branch: allocate one fresh name per binding position of
    /// the pattern, rename the pattern's binders to them, and open the body
    /// with them.
    #[verifier::loop_isolation(false)]
    pub fn unbind(&self, gen: &mut FreshGen) -> (r: (RcPattern, RcTerm))
        requires
            term_depth_ok(self.body@, 0),
            old(gen).next_id + pattern_binders(self.pattern@).len() <= u64::MAX,
        ensures
            r.0@ == pattern_rename(
                self.pattern@,
                clause_fresh_names(self.pattern@, old(gen).next_id),
                0,
            ).0,
            r.1@ == term_open(self.body@, 0, clause_fresh_names(self.pattern@, old(gen).next_id)),
            final(gen).next_id == old(gen).next_id + pattern_binders(self.pattern@).len(),
    {
        let bs = self.pattern.binders();
        let ghost start = gen.next_id;
        let ghost fresh = clause_fresh_names(self.pattern@, start);
        let mut names: Vec<FreeVar> = Vec::new();
        let mut i: usize = 0;
        while i < bs.len()
            invariant
                i <= bs@.len(),
                names@.len() == i,
                gen.next_id == start + i,
                free_var_views(names@) == fresh.take(i as int),
            decreases bs@.len() - i,
        {
            proof {
                lemma_free_var_views(bs@);
            }
            let fresh_var = gen.fresh(bs[i].name.clone());
            let ghost names0 = names@;
            names.push(fresh_var);
            i = i + 1;
            proof {
                assert(names@.drop_last() =~= names0);
                assert(free_var_views(bs@)[i - 1] == bs@[i - 1]@);
                assert(fresh[i - 1] == (FreeVarView {
                    name: pattern_binders(self.pattern@)[i - 1].name,
                    id: (start + i - 1) as u64,
                }));
                assert(free_var_views(names@) =~= fresh.take(i as int));
            }
        }
        proof {
            assert(fresh.take(i as int) =~= fresh);
        }
        let renamed = self.pattern.rename_binders(&names, 0);
        let body = self.body.open_at(0, &names);
        (renamed.0, body)
    }
}

} // verus!
