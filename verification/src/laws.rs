//! The laws of the core: alpha-equivalence is an equivalence relation,
//! binding then unbinding reproduces an alpha-equivalent scope, substitution
//! touches exactly the free occurrences of its domain, full normal form
//! implies weak head normal form, and universe shifting is additive.

use vstd::prelude::*;
use crate::universe::LevelShift;
use crate::var::{find_binder, lemma_find_binder, var_alpha_eq, FreeVarView, VarView};
use crate::term::{
    subst_lookup, term_substs, scope_substs, fields_substs, clauses_substs, terms_substs,
    lemma_subst_lookup, ClauseView, FieldView, PatternView, ScopeView, TermView,
};
use crate::alpha::{
    clauses_alpha_eq, fields_alpha_eq, pattern_alpha_eq, scope_alpha_eq, term_alpha_eq,
    terms_alpha_eq,
};
use crate::binding::{
    clauses_close, clauses_open, fields_close, fields_open, pattern_close, pattern_open,
    scope_close, scope_open, term_close, term_open, terms_close, terms_open,
};
use crate::value::{
    neutral_shift, neutral_shift_ok, value_is_nf, value_is_whnf, value_shift, value_shift_ok,
    values_shift, values_shift_ok, vclauses_shift, vclauses_shift_ok, vfields_shift,
    vfields_shift_ok, HeadView, NeutralView, ValueClauseView, ValueFieldView, ValueScopeView,
    ValueView,
};

verus! {

// ---------------------------------------------------------------------------
// Full normal form implies weak head normal form, but not conversely: a pi
// type whose body is neutral is in weak head normal form and not in normal
// form.
// ---------------------------------------------------------------------------
/// A value in normal form is in weak head normal form.
pub proof fn lemma_nf_implies_whnf(v: ValueView)
    requires
        value_is_nf(v),
    ensures
        value_is_whnf(v),
{
}

// ---------------------------------------------------------------------------
// What substitution touches: bound variables are always left unchanged, a
// free occurrence whose id is a key is replaced by the first mapped term,
// and a term in which no key occurs free is returned unchanged.
// ---------------------------------------------------------------------------
/// Substitution never changes a bound variable.
pub proof fn lemma_substs_bound_unchanged(
    b: VarView,
    shift: LevelShift,
    m: Seq<(FreeVarView, TermView)>,
)
    requires
        b is Bound,
    ensures
        term_substs(TermView::Var(b, shift), m) == TermView::Var(b, shift),
{
}

/// A free occurrence whose id is a key of the mapping is replaced by the
/// first term it is mapped to; one whose id is no key is left unchanged.
pub proof fn lemma_substs_free_occurrence(
    n: FreeVarView,
    shift: LevelShift,
    m: Seq<(FreeVarView, TermView)>,
)
    ensures
        subst_lookup(m, n.id) matches Some(u) ==> term_substs(TermView::Var(VarView::Free(n), shift), m)
            == u,
        subst_lookup(m, n.id) is None ==> term_substs(TermView::Var(VarView::Free(n), shift), m)
            == TermView::Var(VarView::Free(n), shift),
{
}

/// Whether the free variable with id `id` occurs anywhere in the term,
/// including inside the patterns of case branches.
pub open spec fn term_has_free(t: TermView, id: u64) -> bool
    decreases t,
{
    match t {
        TermView::Ann(a, ty) => term_has_free(*a, id) || term_has_free(*ty, id),
        TermView::Universe(_) => false,
        TermView::Literal(_) => false,
        TermView::Var(v, _) => v matches VarView::Free(n) && n.id == id,
        TermView::Extern(_, ty) => term_has_free(*ty, id),
        TermView::Pi(s) => scope_has_free(s, id),
        TermView::Lam(s) => scope_has_free(s, id),
        TermView::App(f, a) => term_has_free(*f, id) || term_has_free(*a, id),
        TermView::If(c, a, b) => term_has_free(*c, id) || term_has_free(*a, id) || term_has_free(
            *b,
            id,
        ),
        TermView::RecordType(fs) => fields_have_free(fs, id),
        TermView::Record(fs) => fields_have_free(fs, id),
        TermView::Proj(e, _) => term_has_free(*e, id),
        TermView::Case(s, cs) => term_has_free(*s, id) || clauses_have_free(cs, id),
        TermView::Array(es) => terms_have_free(es, id),
        TermView::Let(s) => scope_has_free(s, id),
    }
}

pub open spec fn scope_has_free(s: ScopeView, id: u64) -> bool
    decreases s,
{
    term_has_free(*s.ann, id) || term_has_free(*s.body, id)
}

pub open spec fn pattern_has_free(p: PatternView, id: u64) -> bool
    decreases p,
{
    match p {
        PatternView::Ann(q, t) => pattern_has_free(*q, id) || term_has_free(*t, id),
        PatternView::Binder(_) => false,
        PatternView::Var(v, _) => v matches VarView::Free(n) && n.id == id,
        PatternView::Literal(_) => false,
    }
}

pub open spec fn fields_have_free(fs: Seq<FieldView>, id: u64) -> bool
    decreases fs,
{
    fs.len() != 0 && (fields_have_free(fs.drop_last(), id) || term_has_free(fs.last().ann, id))
}

pub open spec fn clauses_have_free(cs: Seq<ClauseView>, id: u64) -> bool
    decreases cs,
{
    cs.len() != 0 && (clauses_have_free(cs.drop_last(), id) || pattern_has_free(
        cs.last().pattern,
        id,
    ) || term_has_free(cs.last().body, id))
}

pub open spec fn terms_have_free(ts: Seq<TermView>, id: u64) -> bool
    decreases ts,
{
    ts.len() != 0 && (terms_have_free(ts.drop_last(), id) || term_has_free(ts.last(), id))
}

/// Every free variable occurring in the term has an id below `bound`. A
/// fresh-name allocator whose counter is at least `bound` therefore only
/// hands out names that do not occur in the term.
pub open spec fn term_ids_below(t: TermView, bound: u64) -> bool
    decreases t,
{
    match t {
        TermView::Ann(a, ty) => term_ids_below(*a, bound) && term_ids_below(*ty, bound),
        TermView::Universe(_) => true,
        TermView::Literal(_) => true,
        TermView::Var(v, _) => v matches VarView::Free(n) ==> n.id < bound,
        TermView::Extern(_, ty) => term_ids_below(*ty, bound),
        TermView::Pi(s) => term_ids_below(*s.ann, bound) && term_ids_below(*s.body, bound),
        TermView::Lam(s) => term_ids_below(*s.ann, bound) && term_ids_below(*s.body, bound),
        TermView::App(f, a) => term_ids_below(*f, bound) && term_ids_below(*a, bound),
        TermView::If(c, a, b) => term_ids_below(*c, bound) && term_ids_below(*a, bound)
            && term_ids_below(*b, bound),
        TermView::RecordType(fs) => fields_ids_below(fs, bound),
        TermView::Record(fs) => fields_ids_below(fs, bound),
        TermView::Proj(e, _) => term_ids_below(*e, bound),
        TermView::Case(s, cs) => term_ids_below(*s, bound) && clauses_ids_below(cs, bound),
        TermView::Array(es) => terms_ids_below(es, bound),
        TermView::Let(s) => term_ids_below(*s.ann, bound) && term_ids_below(*s.body, bound),
    }
}

pub open spec fn pattern_ids_below(p: PatternView, bound: u64) -> bool
    decreases p,
{
    match p {
        PatternView::Ann(q, t) => pattern_ids_below(*q, bound) && term_ids_below(*t, bound),
        PatternView::Binder(_) => true,
        PatternView::Var(v, _) => v matches VarView::Free(n) ==> n.id < bound,
        PatternView::Literal(_) => true,
    }
}

pub open spec fn fields_ids_below(fs: Seq<FieldView>, bound: u64) -> bool
    decreases fs,
{
    fs.len() == 0 || (fields_ids_below(fs.drop_last(), bound) && term_ids_below(
        fs.last().ann,
        bound,
    ))
}

pub open spec fn clauses_ids_below(cs: Seq<ClauseView>, bound: u64) -> bool
    decreases cs,
{
    cs.len() == 0 || (clauses_ids_below(cs.drop_last(), bound) && pattern_ids_below(
        cs.last().pattern,
        bound,
    ) && term_ids_below(cs.last().body, bound))
}

pub open spec fn terms_ids_below(ts: Seq<TermView>, bound: u64) -> bool
    decreases ts,
{
    ts.len() == 0 || (terms_ids_below(ts.drop_last(), bound) && term_ids_below(ts.last(), bound))
}

/// A name whose id is at least `bound` does not occur free in a term all of
/// whose free ids lie below `bound`.
pub proof fn lemma_ids_below_not_free(t: TermView, bound: u64, id: u64)
    requires
        term_ids_below(t, bound),
        id >= bound,
    ensures
        !term_has_free(t, id),
    decreases t,
{
    match t {
        TermView::Ann(a, ty) => {
            lemma_ids_below_not_free(*a, bound, id);
            lemma_ids_below_not_free(*ty, bound, id);
        },
        TermView::Universe(_) => {},
        TermView::Literal(_) => {},
        TermView::Var(_, _) => {},
        TermView::Extern(_, ty) => {
            lemma_ids_below_not_free(*ty, bound, id);
        },
        TermView::Pi(s) => {
            lemma_ids_below_not_free(*s.ann, bound, id);
            lemma_ids_below_not_free(*s.body, bound, id);
            lemma_scope_has_free_unfold(s, id);
        },
        TermView::Lam(s) => {
            lemma_ids_below_not_free(*s.ann, bound, id);
            lemma_ids_below_not_free(*s.body, bound, id);
            lemma_scope_has_free_unfold(s, id);
        },
        TermView::App(f, a) => {
            lemma_ids_below_not_free(*f, bound, id);
            lemma_ids_below_not_free(*a, bound, id);
        },
        TermView::If(c, a, b) => {
            lemma_ids_below_not_free(*c, bound, id);
            lemma_ids_below_not_free(*a, bound, id);
            lemma_ids_below_not_free(*b, bound, id);
        },
        TermView::RecordType(fs) => {
            lemma_fields_ids_below_not_free(fs, bound, id);
        },
        TermView::Record(fs) => {
            lemma_fields_ids_below_not_free(fs, bound, id);
        },
        TermView::Proj(e, _) => {
            lemma_ids_below_not_free(*e, bound, id);
        },
        TermView::Case(s, cs) => {
            lemma_ids_below_not_free(*s, bound, id);
            lemma_clauses_ids_below_not_free(cs, bound, id);
        },
        TermView::Array(es) => {
            lemma_terms_ids_below_not_free(es, bound, id);
        },
        TermView::Let(s) => {
            lemma_ids_below_not_free(*s.ann, bound, id);
            lemma_ids_below_not_free(*s.body, bound, id);
            lemma_scope_has_free_unfold(s, id);
        },
    }
}

proof fn lemma_pattern_ids_below_not_free(p: PatternView, bound: u64, id: u64)
    requires
        pattern_ids_below(p, bound),
        id >= bound,
    ensures
        !pattern_has_free(p, id),
    decreases p,
{
    match p {
        PatternView::Ann(q, t) => {
            lemma_pattern_ids_below_not_free(*q, bound, id);
            lemma_ids_below_not_free(*t, bound, id);
        },
        _ => {},
    }
}

proof fn lemma_fields_ids_below_not_free(fs: Seq<FieldView>, bound: u64, id: u64)
    requires
        fields_ids_below(fs, bound),
        id >= bound,
    ensures
        !fields_have_free(fs, id),
    decreases fs,
{
    if fs.len() > 0 {
        lemma_fields_ids_below_not_free(fs.drop_last(), bound, id);
        lemma_ids_below_not_free(fs.last().ann, bound, id);
    }
}

proof fn lemma_clauses_ids_below_not_free(cs: Seq<ClauseView>, bound: u64, id: u64)
    requires
        clauses_ids_below(cs, bound),
        id >= bound,
    ensures
        !clauses_have_free(cs, id),
    decreases cs,
{
    if cs.len() > 0 {
        lemma_clauses_ids_below_not_free(cs.drop_last(), bound, id);
        lemma_pattern_ids_below_not_free(cs.last().pattern, bound, id);
        lemma_ids_below_not_free(cs.last().body, bound, id);
    }
}

proof fn lemma_terms_ids_below_not_free(ts: Seq<TermView>, bound: u64, id: u64)
    requires
        terms_ids_below(ts, bound),
        id >= bound,
    ensures
        !terms_have_free(ts, id),
    decreases ts,
{
    if ts.len() > 0 {
        lemma_terms_ids_below_not_free(ts.drop_last(), bound, id);
        lemma_ids_below_not_free(ts.last(), bound, id);
    }
}

/// No key of the mapping occurs free in the term.
pub open spec fn domain_disjoint(t: TermView, m: Seq<(FreeVarView, TermView)>) -> bool {
    forall|k: int| 0 <= k < m.len() ==> !term_has_free(t, (#[trigger] m[k]).0.id)
}

/// Substituting a mapping none of whose keys occurs free in the term returns
/// the term unchanged: substitution replaces exactly the free occurrences of
/// its domain and nothing else.
pub proof fn lemma_substs_disjoint_identity(t: TermView, m: Seq<(FreeVarView, TermView)>)
    requires
        domain_disjoint(t, m),
    ensures
        term_substs(t, m) == t,
    decreases t,
{
    match t {
        TermView::Ann(a, ty) => {
            lemma_substs_disjoint_identity(*a, m);
            lemma_substs_disjoint_identity(*ty, m);
        },
        TermView::Universe(_) => {},
        TermView::Literal(_) => {},
        TermView::Var(v, shift) => {
            if let VarView::Free(n) = v {
                lemma_subst_lookup(m, n.id);
                if let Some(u) = subst_lookup(m, n.id) {
                    let k = choose|k: int|
                        {
                            &&& 0 <= k < m.len()
                            &&& #[trigger] m[k].0.id == n.id
                            &&& m[k].1 == u
                            &&& forall|j: int| 0 <= j < k ==> m[j].0.id != n.id
                        };
                    assert(term_has_free(t, m[k].0.id));
                }
            }
        },
        TermView::Extern(_, ty) => {
            lemma_substs_disjoint_identity(*ty, m);
        },
        TermView::Pi(s) => {
            lemma_scope_substs_disjoint_identity(s, m);
        },
        TermView::Lam(s) => {
            lemma_scope_substs_disjoint_identity(s, m);
        },
        TermView::App(f, a) => {
            lemma_substs_disjoint_identity(*f, m);
            lemma_substs_disjoint_identity(*a, m);
        },
        TermView::If(c, a, b) => {
            lemma_substs_disjoint_identity(*c, m);
            lemma_substs_disjoint_identity(*a, m);
            lemma_substs_disjoint_identity(*b, m);
        },
        TermView::RecordType(fs) => {
            lemma_fields_substs_disjoint_identity(fs, m);
            assert(fields_substs(fs, m) =~= fs);
        },
        TermView::Record(fs) => {
            lemma_fields_substs_disjoint_identity(fs, m);
            assert(fields_substs(fs, m) =~= fs);
        },
        TermView::Proj(e, _) => {
            lemma_substs_disjoint_identity(*e, m);
        },
        TermView::Case(s, cs) => {
            lemma_substs_disjoint_identity(*s, m);
            lemma_clauses_substs_disjoint_identity(cs, m);
            assert(clauses_substs(cs, m) =~= cs);
        },
        TermView::Array(es) => {
            lemma_terms_substs_disjoint_identity(es, m);
            assert(terms_substs(es, m) =~= es);
        },
        TermView::Let(s) => {
            lemma_scope_substs_disjoint_identity(s, m);
        },
    }
}

proof fn lemma_scope_substs_disjoint_identity(s: ScopeView, m: Seq<(FreeVarView, TermView)>)
    requires
        forall|k: int| 0 <= k < m.len() ==> !scope_has_free(s, (#[trigger] m[k]).0.id),
    ensures
        scope_substs(s, m) == s,
    decreases s,
{
    lemma_substs_disjoint_identity(*s.ann, m);
    lemma_substs_disjoint_identity(*s.body, m);
}

proof fn lemma_fields_substs_disjoint_identity(fs: Seq<FieldView>, m: Seq<(FreeVarView, TermView)>)
    requires
        forall|k: int| 0 <= k < m.len() ==> !fields_have_free(fs, (#[trigger] m[k]).0.id),
    ensures
        fields_substs(fs, m).len() == fs.len(),
        forall|i: int| 0 <= i < fs.len() ==> fields_substs(fs, m)[i] == fs[i],
    decreases fs,
{
    if fs.len() > 0 {
        lemma_fields_substs_disjoint_identity(fs.drop_last(), m);
        lemma_substs_disjoint_identity(fs.last().ann, m);
        assert forall|i: int| 0 <= i < fs.len() implies fields_substs(fs, m)[i] == fs[i] by {
            if i < fs.len() - 1 {
                assert(fs.drop_last()[i] == fs[i]);
            } else {
                assert(fs.last() == fs[i]);
            }
        }
    }
}

proof fn lemma_clauses_substs_disjoint_identity(
    cs: Seq<ClauseView>,
    m: Seq<(FreeVarView, TermView)>,
)
    requires
        forall|k: int| 0 <= k < m.len() ==> !clauses_have_free(cs, (#[trigger] m[k]).0.id),
    ensures
        clauses_substs(cs, m).len() == cs.len(),
        forall|i: int| 0 <= i < cs.len() ==> clauses_substs(cs, m)[i] == cs[i],
    decreases cs,
{
    if cs.len() > 0 {
        lemma_clauses_substs_disjoint_identity(cs.drop_last(), m);
        lemma_substs_disjoint_identity(cs.last().body, m);
        assert forall|i: int| 0 <= i < cs.len() implies clauses_substs(cs, m)[i] == cs[i] by {
            if i < cs.len() - 1 {
                assert(cs.drop_last()[i] == cs[i]);
            } else {
                assert(cs.last() == cs[i]);
            }
        }
    }
}

proof fn lemma_terms_substs_disjoint_identity(ts: Seq<TermView>, m: Seq<(FreeVarView, TermView)>)
    requires
        forall|k: int| 0 <= k < m.len() ==> !terms_have_free(ts, (#[trigger] m[k]).0.id),
    ensures
        terms_substs(ts, m).len() == ts.len(),
        forall|i: int| 0 <= i < ts.len() ==> terms_substs(ts, m)[i] == ts[i],
    decreases ts,
{
    if ts.len() > 0 {
        lemma_terms_substs_disjoint_identity(ts.drop_last(), m);
        lemma_substs_disjoint_identity(ts.last(), m);
        assert forall|i: int| 0 <= i < ts.len() implies terms_substs(ts, m)[i] == ts[i] by {
            if i < ts.len() - 1 {
                assert(ts.drop_last()[i] == ts[i]);
            } else {
                assert(ts.last() == ts[i]);
            }
        }
    }
}

// ---------------------------------------------------------------------------
// Shifting universes is additive: shifting by `a` and then by `b` is
// shifting once by `a + b`.
// ---------------------------------------------------------------------------
/// Universe shifting is additive.
pub proof fn lemma_shift_additive(v: ValueView, a: LevelShift, b: LevelShift)
    requires
        a.0 + b.0 <= u32::MAX,
        value_shift_ok(v, LevelShift((a.0 + b.0) as u32)),
    ensures
        value_shift_ok(v, a),
        value_shift_ok(value_shift(v, a), b),
        value_shift(value_shift(v, a), b) == value_shift(v, LevelShift((a.0 + b.0) as u32)),
    decreases v,
{
    let ab = LevelShift((a.0 + b.0) as u32);
    match v {
        ValueView::Universe(_) => {},
        ValueView::Literal(_) => {},
        ValueView::Pi(sc) => {
            lemma_shift_additive(*sc.ann, a, b);
            lemma_shift_additive(*sc.body, a, b);
        },
        ValueView::Lam(sc) => {
            lemma_shift_additive(*sc.ann, a, b);
            lemma_shift_additive(*sc.body, a, b);
        },
        ValueView::RecordType(fs) => {
            lemma_vfields_shift_additive(fs, a, b);
        },
        ValueView::Record(fs) => {
            lemma_vfields_shift_additive(fs, a, b);
        },
        ValueView::Array(es) => {
            lemma_values_shift_additive(es, a, b);
        },
        ValueView::Neutral(n, spine) => {
            lemma_neutral_shift_additive(*n, a, b);
            lemma_values_shift_additive(spine, a, b);
        },
    }
}

pub proof fn lemma_neutral_shift_additive(n: NeutralView, a: LevelShift, b: LevelShift)
    requires
        a.0 + b.0 <= u32::MAX,
        neutral_shift_ok(n, LevelShift((a.0 + b.0) as u32)),
    ensures
        neutral_shift_ok(n, a),
        neutral_shift_ok(neutral_shift(n, a), b),
        neutral_shift(neutral_shift(n, a), b) == neutral_shift(n, LevelShift((a.0 + b.0) as u32)),
    decreases n,
{
    match n {
        NeutralView::Head(HeadView::Var(_, _)) => {},
        NeutralView::Head(HeadView::Extern(_, ty)) => {
            lemma_shift_additive(*ty, a, b);
        },
        NeutralView::If(c, x, y) => {
            lemma_neutral_shift_additive(*c, a, b);
            lemma_shift_additive(*x, a, b);
            lemma_shift_additive(*y, a, b);
        },
        NeutralView::Proj(e, _) => {
            lemma_neutral_shift_additive(*e, a, b);
        },
        NeutralView::Case(e, cs) => {
            lemma_neutral_shift_additive(*e, a, b);
            lemma_vclauses_shift_additive(cs, a, b);
        },
    }
}

proof fn lemma_vfields_shift_additive(fs: Seq<ValueFieldView>, a: LevelShift, b: LevelShift)
    requires
        a.0 + b.0 <= u32::MAX,
        vfields_shift_ok(fs, LevelShift((a.0 + b.0) as u32)),
    ensures
        vfields_shift_ok(fs, a),
        vfields_shift_ok(vfields_shift(fs, a), b),
        vfields_shift(vfields_shift(fs, a), b) == vfields_shift(
            fs,
            LevelShift((a.0 + b.0) as u32),
        ),
    decreases fs,
{
    if fs.len() > 0 {
        lemma_vfields_shift_additive(fs.drop_last(), a, b);
        lemma_shift_additive(fs.last().value, a, b);
        assert(vfields_shift(fs, a).drop_last() =~= vfields_shift(fs.drop_last(), a));
        assert(vfields_shift(fs, a).last() == (ValueFieldView {
            label: fs.last().label,
            binder: fs.last().binder,
            value: value_shift(fs.last().value, a),
        }));
    }
}

proof fn lemma_vclauses_shift_additive(cs: Seq<ValueClauseView>, a: LevelShift, b: LevelShift)
    requires
        a.0 + b.0 <= u32::MAX,
        vclauses_shift_ok(cs, LevelShift((a.0 + b.0) as u32)),
    ensures
        vclauses_shift_ok(cs, a),
        vclauses_shift_ok(vclauses_shift(cs, a), b),
        vclauses_shift(vclauses_shift(cs, a), b) == vclauses_shift(
            cs,
            LevelShift((a.0 + b.0) as u32),
        ),
    decreases cs,
{
    if cs.len() > 0 {
        lemma_vclauses_shift_additive(cs.drop_last(), a, b);
        lemma_shift_additive(cs.last().body, a, b);
        assert(vclauses_shift(cs, a).drop_last() =~= vclauses_shift(cs.drop_last(), a));
        assert(vclauses_shift(cs, a).last() == (ValueClauseView {
            pattern: cs.last().pattern,
            body: value_shift(cs.last().body, a),
        }));
    }
}

proof fn lemma_values_shift_additive(es: Seq<ValueView>, a: LevelShift, b: LevelShift)
    requires
        a.0 + b.0 <= u32::MAX,
        values_shift_ok(es, LevelShift((a.0 + b.0) as u32)),
    ensures
        values_shift_ok(es, a),
        values_shift_ok(values_shift(es, a), b),
        values_shift(values_shift(es, a), b) == values_shift(es, LevelShift((a.0 + b.0) as u32)),
    decreases es,
{
    if es.len() > 0 {
        lemma_values_shift_additive(es.drop_last(), a, b);
        lemma_shift_additive(es.last(), a, b);
        assert(values_shift(es, a).drop_last() =~= values_shift(es.drop_last(), a));
        assert(values_shift(es, a).last() == value_shift(es.last(), a));
    }
}

/// Shifting by the identity shift changes nothing.
pub proof fn lemma_shift_zero(v: ValueView)
    requires
        value_shift_ok(v, LevelShift(0)),
    ensures
        value_shift(v, LevelShift(0)) == v,
    decreases v,
{
    match v {
        ValueView::Universe(l) => {
            assert(value_shift(v, LevelShift(0)) == ValueView::Universe(l));
        },
        ValueView::Literal(_) => {},
        ValueView::Pi(sc) => {
            lemma_shift_zero(*sc.ann);
            lemma_shift_zero(*sc.body);
            assert(value_shift(v, LevelShift(0)) == ValueView::Pi(
                ValueScopeView {
                    binder: sc.binder,
                    ann: Box::new(value_shift(*sc.ann, LevelShift(0))),
                    body: Box::new(value_shift(*sc.body, LevelShift(0))),
                },
            ));
        },
        ValueView::Lam(sc) => {
            lemma_shift_zero(*sc.ann);
            lemma_shift_zero(*sc.body);
            assert(value_shift(v, LevelShift(0)) == ValueView::Lam(
                ValueScopeView {
                    binder: sc.binder,
                    ann: Box::new(value_shift(*sc.ann, LevelShift(0))),
                    body: Box::new(value_shift(*sc.body, LevelShift(0))),
                },
            ));
        },
        ValueView::RecordType(fs) => {
            lemma_vfields_shift_zero(fs);
            assert(vfields_shift(fs, LevelShift(0)) =~= fs);
        },
        ValueView::Record(fs) => {
            lemma_vfields_shift_zero(fs);
            assert(vfields_shift(fs, LevelShift(0)) =~= fs);
        },
        ValueView::Array(es) => {
            lemma_values_shift_zero(es);
            assert(values_shift(es, LevelShift(0)) =~= es);
        },
        ValueView::Neutral(n, spine) => {
            lemma_neutral_shift_zero(*n);
            lemma_values_shift_zero(spine);
            assert(values_shift(spine, LevelShift(0)) =~= spine);
        },
    }
}

proof fn lemma_neutral_shift_zero(n: NeutralView)
    requires
        neutral_shift_ok(n, LevelShift(0)),
    ensures
        neutral_shift(n, LevelShift(0)) == n,
    decreases n,
{
    match n {
        NeutralView::Head(HeadView::Var(_, _)) => {},
        NeutralView::Head(HeadView::Extern(name, ty)) => {
            lemma_shift_zero(*ty);
            assert(neutral_shift(n, LevelShift(0)) == NeutralView::Head(
                HeadView::Extern(name, Box::new(value_shift(*ty, LevelShift(0)))),
            ));
        },
        NeutralView::If(c, x, y) => {
            lemma_neutral_shift_zero(*c);
            lemma_shift_zero(*x);
            lemma_shift_zero(*y);
        },
        NeutralView::Proj(e, _) => {
            lemma_neutral_shift_zero(*e);
        },
        NeutralView::Case(e, cs) => {
            lemma_neutral_shift_zero(*e);
            lemma_vclauses_shift_zero(cs);
            assert(vclauses_shift(cs, LevelShift(0)) =~= cs);
        },
    }
}

proof fn lemma_vfields_shift_zero(fs: Seq<ValueFieldView>)
    requires
        vfields_shift_ok(fs, LevelShift(0)),
    ensures
        vfields_shift(fs, LevelShift(0)).len() == fs.len(),
        forall|i: int| 0 <= i < fs.len() ==> vfields_shift(fs, LevelShift(0))[i] == fs[i],
    decreases fs,
{
    if fs.len() > 0 {
        lemma_vfields_shift_zero(fs.drop_last());
        lemma_shift_zero(fs.last().value);
        assert forall|i: int|
            0 <= i < fs.len() implies vfields_shift(fs, LevelShift(0))[i] == fs[i] by {
            if i < fs.len() - 1 {
                assert(fs.drop_last()[i] == fs[i]);
            } else {
                assert(fs.last() == fs[i]);
            }
        }
    }
}

proof fn lemma_vclauses_shift_zero(cs: Seq<ValueClauseView>)
    requires
        vclauses_shift_ok(cs, LevelShift(0)),
    ensures
        vclauses_shift(cs, LevelShift(0)).len() == cs.len(),
        forall|i: int| 0 <= i < cs.len() ==> vclauses_shift(cs, LevelShift(0))[i] == cs[i],
    decreases cs,
{
    if cs.len() > 0 {
        lemma_vclauses_shift_zero(cs.drop_last());
        lemma_shift_zero(cs.last().body);
        assert forall|i: int|
            0 <= i < cs.len() implies vclauses_shift(cs, LevelShift(0))[i] == cs[i] by {
            if i < cs.len() - 1 {
                assert(cs.drop_last()[i] == cs[i]);
            } else {
                assert(cs.last() == cs[i]);
            }
        }
    }
}

proof fn lemma_values_shift_zero(es: Seq<ValueView>)
    requires
        values_shift_ok(es, LevelShift(0)),
    ensures
        values_shift(es, LevelShift(0)).len() == es.len(),
        forall|i: int| 0 <= i < es.len() ==> values_shift(es, LevelShift(0))[i] == es[i],
    decreases es,
{
    if es.len() > 0 {
        lemma_values_shift_zero(es.drop_last());
        lemma_shift_zero(es.last());
        assert forall|i: int|
            0 <= i < es.len() implies values_shift(es, LevelShift(0))[i] == es[i] by {
            if i < es.len() - 1 {
                assert(es.drop_last()[i] == es[i]);
            } else {
                assert(es.last() == es[i]);
            }
        }
    }
}

// ---------------------------------------------------------------------------
// Alpha-equivalence is an equivalence relation: reflexive, symmetric and
// transitive.
// ---------------------------------------------------------------------------
proof fn lemma_scope_alpha_unfold(a: ScopeView, b: ScopeView)
    ensures
        scope_alpha_eq(a, b) == (term_alpha_eq(*a.ann, *b.ann) && term_alpha_eq(*a.body, *b.body)),
{
}

proof fn lemma_scope_has_free_unfold(s: ScopeView, id: u64)
    ensures
        scope_has_free(s, id) == (term_has_free(*s.ann, id) || term_has_free(*s.body, id)),
{
}

proof fn lemma_scope_close_unfold(
    s: ScopeView,
    depth: u32,
    binders: Seq<FreeVarView>,
)
    ensures
        scope_close(s, depth, binders) == (ScopeView {
            binder: s.binder,
            ann: Box::new(term_close(*s.ann, depth, binders)),
            body: Box::new(term_close(*s.body, (depth + 1) as u32, binders)),
        }),
{
}

proof fn lemma_scope_open_unfold(s: ScopeView, depth: u32, names: Seq<FreeVarView>)
    ensures
        scope_open(s, depth, names) == (ScopeView {
            binder: s.binder,
            ann: Box::new(term_open(*s.ann, depth, names)),
            body: Box::new(term_open(*s.body, (depth + 1) as u32, names)),
        }),
{
}

/// Alpha-equivalence is reflexive.
pub proof fn lemma_alpha_eq_refl(t: TermView)
    ensures
        term_alpha_eq(t, t),
    decreases t,
{
    match t {
        TermView::Ann(a, ty) => {
            lemma_alpha_eq_refl(*a);
            lemma_alpha_eq_refl(*ty);
        },
        TermView::Universe(_) => {},
        TermView::Literal(_) => {},
        TermView::Var(_, _) => {},
        TermView::Extern(_, ty) => {
            lemma_alpha_eq_refl(*ty);
        },
        TermView::Pi(s) => {
            lemma_alpha_eq_refl(*s.ann);
            lemma_alpha_eq_refl(*s.body);
            lemma_scope_alpha_unfold(s, s);
        },
        TermView::Lam(s) => {
            lemma_alpha_eq_refl(*s.ann);
            lemma_alpha_eq_refl(*s.body);
            lemma_scope_alpha_unfold(s, s);
        },
        TermView::App(f, a) => {
            lemma_alpha_eq_refl(*f);
            lemma_alpha_eq_refl(*a);
        },
        TermView::If(c, a, b) => {
            lemma_alpha_eq_refl(*c);
            lemma_alpha_eq_refl(*a);
            lemma_alpha_eq_refl(*b);
        },
        TermView::RecordType(fs) => {
            lemma_fields_alpha_eq_refl(fs);
        },
        TermView::Record(fs) => {
            lemma_fields_alpha_eq_refl(fs);
        },
        TermView::Proj(e, _) => {
            lemma_alpha_eq_refl(*e);
        },
        TermView::Case(s, cs) => {
            lemma_alpha_eq_refl(*s);
            lemma_clauses_alpha_eq_refl(cs);
        },
        TermView::Array(es) => {
            lemma_terms_alpha_eq_refl(es);
        },
        TermView::Let(s) => {
            lemma_alpha_eq_refl(*s.ann);
            lemma_alpha_eq_refl(*s.body);
            lemma_scope_alpha_unfold(s, s);
        },
    }
}

/// Alpha-equivalence of patterns is reflexive.
pub proof fn lemma_pattern_alpha_eq_refl(p: PatternView)
    ensures
        pattern_alpha_eq(p, p),
    decreases p,
{
    match p {
        PatternView::Ann(q, t) => {
            lemma_pattern_alpha_eq_refl(*q);
            lemma_alpha_eq_refl(*t);
        },
        _ => {},
    }
}

proof fn lemma_fields_alpha_eq_refl(fs: Seq<FieldView>)
    ensures
        fields_alpha_eq(fs, fs),
    decreases fs,
{
    if fs.len() > 0 {
        lemma_fields_alpha_eq_refl(fs.drop_last());
        lemma_alpha_eq_refl(fs.last().ann);
    }
}

proof fn lemma_clauses_alpha_eq_refl(cs: Seq<ClauseView>)
    ensures
        clauses_alpha_eq(cs, cs),
    decreases cs,
{
    if cs.len() > 0 {
        lemma_clauses_alpha_eq_refl(cs.drop_last());
        lemma_pattern_alpha_eq_refl(cs.last().pattern);
        lemma_alpha_eq_refl(cs.last().body);
    }
}

proof fn lemma_terms_alpha_eq_refl(ts: Seq<TermView>)
    ensures
        terms_alpha_eq(ts, ts),
    decreases ts,
{
    if ts.len() > 0 {
        lemma_terms_alpha_eq_refl(ts.drop_last());
        lemma_alpha_eq_refl(ts.last());
    }
}

/// Alpha-equivalence is symmetric.
pub proof fn lemma_alpha_eq_sym(a: TermView, b: TermView)
    ensures
        term_alpha_eq(a, b) ==> term_alpha_eq(b, a),
    decreases a,
{
    match (a, b) {
        (TermView::Ann(a1, t1), TermView::Ann(a2, t2)) => {
            lemma_alpha_eq_sym(*a1, *a2);
            lemma_alpha_eq_sym(*t1, *t2);
        },
        (TermView::Extern(_, t1), TermView::Extern(_, t2)) => {
            lemma_alpha_eq_sym(*t1, *t2);
        },
        (TermView::Pi(s1), TermView::Pi(s2)) => {
            lemma_alpha_eq_sym(*s1.ann, *s2.ann);
            lemma_alpha_eq_sym(*s1.body, *s2.body);
            lemma_scope_alpha_unfold(s1, s2);
            lemma_scope_alpha_unfold(s2, s1);
        },
        (TermView::Lam(s1), TermView::Lam(s2)) => {
            lemma_alpha_eq_sym(*s1.ann, *s2.ann);
            lemma_alpha_eq_sym(*s1.body, *s2.body);
            lemma_scope_alpha_unfold(s1, s2);
            lemma_scope_alpha_unfold(s2, s1);
        },
        (TermView::App(f1, a1), TermView::App(f2, a2)) => {
            lemma_alpha_eq_sym(*f1, *f2);
            lemma_alpha_eq_sym(*a1, *a2);
        },
        (TermView::If(c1, t1, e1), TermView::If(c2, t2, e2)) => {
            lemma_alpha_eq_sym(*c1, *c2);
            lemma_alpha_eq_sym(*t1, *t2);
            lemma_alpha_eq_sym(*e1, *e2);
        },
        (TermView::RecordType(f1), TermView::RecordType(f2)) => {
            lemma_fields_alpha_eq_sym(f1, f2);
        },
        (TermView::Record(f1), TermView::Record(f2)) => {
            lemma_fields_alpha_eq_sym(f1, f2);
        },
        (TermView::Proj(e1, _), TermView::Proj(e2, _)) => {
            lemma_alpha_eq_sym(*e1, *e2);
        },
        (TermView::Case(s1, c1), TermView::Case(s2, c2)) => {
            lemma_alpha_eq_sym(*s1, *s2);
            lemma_clauses_alpha_eq_sym(c1, c2);
        },
        (TermView::Array(e1), TermView::Array(e2)) => {
            lemma_terms_alpha_eq_sym(e1, e2);
        },
        (TermView::Let(s1), TermView::Let(s2)) => {
            lemma_alpha_eq_sym(*s1.ann, *s2.ann);
            lemma_alpha_eq_sym(*s1.body, *s2.body);
            lemma_scope_alpha_unfold(s1, s2);
            lemma_scope_alpha_unfold(s2, s1);
        },
        _ => {},
    }
}

/// Alpha-equivalence of patterns is symmetric.
pub proof fn lemma_pattern_alpha_eq_sym(a: PatternView, b: PatternView)
    ensures
        pattern_alpha_eq(a, b) ==> pattern_alpha_eq(b, a),
    decreases a,
{
    match (a, b) {
        (PatternView::Ann(q1, t1), PatternView::Ann(q2, t2)) => {
            lemma_pattern_alpha_eq_sym(*q1, *q2);
            lemma_alpha_eq_sym(*t1, *t2);
        },
        _ => {},
    }
}

proof fn lemma_fields_alpha_eq_sym(a: Seq<FieldView>, b: Seq<FieldView>)
    ensures
        fields_alpha_eq(a, b) ==> fields_alpha_eq(b, a),
    decreases a,
{
    if a.len() > 0 && a.len() == b.len() {
        lemma_fields_alpha_eq_sym(a.drop_last(), b.drop_last());
        lemma_alpha_eq_sym(a.last().ann, b.last().ann);
    }
}

proof fn lemma_clauses_alpha_eq_sym(a: Seq<ClauseView>, b: Seq<ClauseView>)
    ensures
        clauses_alpha_eq(a, b) ==> clauses_alpha_eq(b, a),
    decreases a,
{
    if a.len() > 0 && a.len() == b.len() {
        lemma_clauses_alpha_eq_sym(a.drop_last(), b.drop_last());
        lemma_pattern_alpha_eq_sym(a.last().pattern, b.last().pattern);
        lemma_alpha_eq_sym(a.last().body, b.last().body);
    }
}

proof fn lemma_terms_alpha_eq_sym(a: Seq<TermView>, b: Seq<TermView>)
    ensures
        terms_alpha_eq(a, b) ==> terms_alpha_eq(b, a),
    decreases a,
{
    if a.len() > 0 && a.len() == b.len() {
        lemma_terms_alpha_eq_sym(a.drop_last(), b.drop_last());
        lemma_alpha_eq_sym(a.last(), b.last());
    }
}

/// Alpha-equivalence is transitive.
pub proof fn lemma_alpha_eq_trans(a: TermView, b: TermView, c: TermView)
    ensures
        term_alpha_eq(a, b) && term_alpha_eq(b, c) ==> term_alpha_eq(a, c),
    decreases a,
{
    match (a, b, c) {
        (TermView::Ann(a1, t1), TermView::Ann(a2, t2), TermView::Ann(a3, t3)) => {
            lemma_alpha_eq_trans(*a1, *a2, *a3);
            lemma_alpha_eq_trans(*t1, *t2, *t3);
        },
        (TermView::Extern(_, t1), TermView::Extern(_, t2), TermView::Extern(_, t3)) => {
            lemma_alpha_eq_trans(*t1, *t2, *t3);
        },
        (TermView::Pi(s1), TermView::Pi(s2), TermView::Pi(s3)) => {
            lemma_alpha_eq_trans(*s1.ann, *s2.ann, *s3.ann);
            lemma_alpha_eq_trans(*s1.body, *s2.body, *s3.body);
            lemma_scope_alpha_unfold(s1, s2);
            lemma_scope_alpha_unfold(s2, s3);
            lemma_scope_alpha_unfold(s1, s3);
        },
        (TermView::Lam(s1), TermView::Lam(s2), TermView::Lam(s3)) => {
            lemma_alpha_eq_trans(*s1.ann, *s2.ann, *s3.ann);
            lemma_alpha_eq_trans(*s1.body, *s2.body, *s3.body);
            lemma_scope_alpha_unfold(s1, s2);
            lemma_scope_alpha_unfold(s2, s3);
            lemma_scope_alpha_unfold(s1, s3);
        },
        (TermView::App(f1, a1), TermView::App(f2, a2), TermView::App(f3, a3)) => {
            lemma_alpha_eq_trans(*f1, *f2, *f3);
            lemma_alpha_eq_trans(*a1, *a2, *a3);
        },
        (TermView::If(c1, t1, e1), TermView::If(c2, t2, e2), TermView::If(c3, t3, e3)) => {
            lemma_alpha_eq_trans(*c1, *c2, *c3);
            lemma_alpha_eq_trans(*t1, *t2, *t3);
            lemma_alpha_eq_trans(*e1, *e2, *e3);
        },
        (TermView::RecordType(f1), TermView::RecordType(f2), TermView::RecordType(f3)) => {
            lemma_fields_alpha_eq_trans(f1, f2, f3);
        },
        (TermView::Record(f1), TermView::Record(f2), TermView::Record(f3)) => {
            lemma_fields_alpha_eq_trans(f1, f2, f3);
        },
        (TermView::Proj(e1, _), TermView::Proj(e2, _), TermView::Proj(e3, _)) => {
            lemma_alpha_eq_trans(*e1, *e2, *e3);
        },
        (TermView::Case(s1, c1), TermView::Case(s2, c2), TermView::Case(s3, c3)) => {
            lemma_alpha_eq_trans(*s1, *s2, *s3);
            lemma_clauses_alpha_eq_trans(c1, c2, c3);
        },
        (TermView::Array(e1), TermView::Array(e2), TermView::Array(e3)) => {
            lemma_terms_alpha_eq_trans(e1, e2, e3);
        },
        (TermView::Let(s1), TermView::Let(s2), TermView::Let(s3)) => {
            lemma_alpha_eq_trans(*s1.ann, *s2.ann, *s3.ann);
            lemma_alpha_eq_trans(*s1.body, *s2.body, *s3.body);
            lemma_scope_alpha_unfold(s1, s2);
            lemma_scope_alpha_unfold(s2, s3);
            lemma_scope_alpha_unfold(s1, s3);
        },
        _ => {},
    }
}

/// Alpha-equivalence of patterns is transitive.
pub proof fn lemma_pattern_alpha_eq_trans(a: PatternView, b: PatternView, c: PatternView)
    ensures
        pattern_alpha_eq(a, b) && pattern_alpha_eq(b, c) ==> pattern_alpha_eq(a, c),
    decreases a,
{
    match (a, b, c) {
        (PatternView::Ann(q1, t1), PatternView::Ann(q2, t2), PatternView::Ann(q3, t3)) => {
            lemma_pattern_alpha_eq_trans(*q1, *q2, *q3);
            lemma_alpha_eq_trans(*t1, *t2, *t3);
        },
        _ => {},
    }
}

proof fn lemma_fields_alpha_eq_trans(a: Seq<FieldView>, b: Seq<FieldView>, c: Seq<FieldView>)
    ensures
        fields_alpha_eq(a, b) && fields_alpha_eq(b, c) ==> fields_alpha_eq(a, c),
    decreases a,
{
    if a.len() > 0 && a.len() == b.len() && b.len() == c.len() {
        lemma_fields_alpha_eq_trans(a.drop_last(), b.drop_last(), c.drop_last());
        lemma_alpha_eq_trans(a.last().ann, b.last().ann, c.last().ann);
    }
}

proof fn lemma_clauses_alpha_eq_trans(a: Seq<ClauseView>, b: Seq<ClauseView>, c: Seq<ClauseView>)
    ensures
        clauses_alpha_eq(a, b) && clauses_alpha_eq(b, c) ==> clauses_alpha_eq(a, c),
    decreases a,
{
    if a.len() > 0 && a.len() == b.len() && b.len() == c.len() {
        lemma_clauses_alpha_eq_trans(a.drop_last(), b.drop_last(), c.drop_last());
        lemma_pattern_alpha_eq_trans(a.last().pattern, b.last().pattern, c.last().pattern);
        lemma_alpha_eq_trans(a.last().body, b.last().body, c.last().body);
    }
}

proof fn lemma_terms_alpha_eq_trans(a: Seq<TermView>, b: Seq<TermView>, c: Seq<TermView>)
    ensures
        terms_alpha_eq(a, b) && terms_alpha_eq(b, c) ==> terms_alpha_eq(a, c),
    decreases a,
{
    if a.len() > 0 && a.len() == b.len() && b.len() == c.len() {
        lemma_terms_alpha_eq_trans(a.drop_last(), b.drop_last(), c.drop_last());
        lemma_alpha_eq_trans(a.last(), b.last(), c.last());
    }
}

proof fn lemma_head_alpha_unfold(a: HeadView, b: HeadView)
    ensures
        crate::alpha::head_alpha_eq(a, b) == (match (a, b) {
            (HeadView::Var(v1, s1), HeadView::Var(v2, s2)) => crate::var::var_alpha_eq(v1, v2)
                && s1 == s2,
            (HeadView::Extern(n1, t1), HeadView::Extern(n2, t2)) => n1 == n2
                && crate::alpha::value_alpha_eq(*t1, *t2),
            _ => false,
        }),
{
}

/// Alpha-equivalence of values is reflexive.
pub proof fn lemma_value_alpha_eq_refl(v: ValueView)
    ensures
        crate::alpha::value_alpha_eq(v, v),
    decreases v,
{
    match v {
        ValueView::Universe(_) => {},
        ValueView::Literal(_) => {},
        ValueView::Pi(s) => {
            lemma_value_alpha_eq_refl(*s.ann);
            lemma_value_alpha_eq_refl(*s.body);
            lemma_value_scope_alpha_unfold(s, s);
        },
        ValueView::Lam(s) => {
            lemma_value_alpha_eq_refl(*s.ann);
            lemma_value_alpha_eq_refl(*s.body);
            lemma_value_scope_alpha_unfold(s, s);
        },
        ValueView::RecordType(fs) => {
            lemma_vfields_alpha_eq_refl(fs);
        },
        ValueView::Record(fs) => {
            lemma_vfields_alpha_eq_refl(fs);
        },
        ValueView::Array(es) => {
            lemma_values_alpha_eq_refl(es);
        },
        ValueView::Neutral(n, spine) => {
            lemma_neutral_alpha_eq_refl(*n);
            lemma_values_alpha_eq_refl(spine);
        },
    }
}

proof fn lemma_neutral_alpha_eq_refl(n: NeutralView)
    ensures
        crate::alpha::neutral_alpha_eq(n, n),
    decreases n,
{
    match n {
        NeutralView::Head(h) => {
            if let HeadView::Extern(_, ty) = h {
                lemma_value_alpha_eq_refl(*ty);
            }
            lemma_head_alpha_unfold(h, h);
        },
        NeutralView::If(c, a, b) => {
            lemma_neutral_alpha_eq_refl(*c);
            lemma_value_alpha_eq_refl(*a);
            lemma_value_alpha_eq_refl(*b);
        },
        NeutralView::Proj(e, _) => {
            lemma_neutral_alpha_eq_refl(*e);
        },
        NeutralView::Case(e, cs) => {
            lemma_neutral_alpha_eq_refl(*e);
            lemma_vclauses_alpha_eq_refl(cs);
        },
    }
}

proof fn lemma_vfields_alpha_eq_refl(fs: Seq<ValueFieldView>)
    ensures
        crate::alpha::vfields_alpha_eq(fs, fs),
    decreases fs,
{
    if fs.len() > 0 {
        lemma_vfields_alpha_eq_refl(fs.drop_last());
        lemma_value_alpha_eq_refl(fs.last().value);
    }
}

proof fn lemma_vclauses_alpha_eq_refl(cs: Seq<ValueClauseView>)
    ensures
        crate::alpha::vclauses_alpha_eq(cs, cs),
    decreases cs,
{
    if cs.len() > 0 {
        lemma_vclauses_alpha_eq_refl(cs.drop_last());
        lemma_pattern_alpha_eq_refl(cs.last().pattern);
        lemma_value_alpha_eq_refl(cs.last().body);
    }
}

proof fn lemma_values_alpha_eq_refl(es: Seq<ValueView>)
    ensures
        crate::alpha::values_alpha_eq(es, es),
    decreases es,
{
    if es.len() > 0 {
        lemma_values_alpha_eq_refl(es.drop_last());
        lemma_value_alpha_eq_refl(es.last());
    }
}

/// Alpha-equivalence of values is symmetric.
pub proof fn lemma_value_alpha_eq_sym(a: ValueView, b: ValueView)
    ensures
        crate::alpha::value_alpha_eq(a, b) ==> crate::alpha::value_alpha_eq(b, a),
    decreases a,
{
    match (a, b) {
        (ValueView::Pi(s1), ValueView::Pi(s2)) => {
            lemma_value_alpha_eq_sym(*s1.ann, *s2.ann);
            lemma_value_alpha_eq_sym(*s1.body, *s2.body);
            lemma_value_scope_alpha_unfold(s1, s2);
            lemma_value_scope_alpha_unfold(s2, s1);
        },
        (ValueView::Lam(s1), ValueView::Lam(s2)) => {
            lemma_value_alpha_eq_sym(*s1.ann, *s2.ann);
            lemma_value_alpha_eq_sym(*s1.body, *s2.body);
            lemma_value_scope_alpha_unfold(s1, s2);
            lemma_value_scope_alpha_unfold(s2, s1);
        },
        (ValueView::RecordType(f1), ValueView::RecordType(f2)) => {
            lemma_vfields_alpha_eq_sym(f1, f2);
        },
        (ValueView::Record(f1), ValueView::Record(f2)) => {
            lemma_vfields_alpha_eq_sym(f1, f2);
        },
        (ValueView::Array(e1), ValueView::Array(e2)) => {
            lemma_values_alpha_eq_sym(e1, e2);
        },
        (ValueView::Neutral(n1, s1), ValueView::Neutral(n2, s2)) => {
            lemma_neutral_alpha_eq_sym(*n1, *n2);
            lemma_values_alpha_eq_sym(s1, s2);
        },
        _ => {},
    }
}

proof fn lemma_neutral_alpha_eq_sym(a: NeutralView, b: NeutralView)
    ensures
        crate::alpha::neutral_alpha_eq(a, b) ==> crate::alpha::neutral_alpha_eq(b, a),
    decreases a,
{
    match (a, b) {
        (NeutralView::Head(h1), NeutralView::Head(h2)) => {
            if let (HeadView::Extern(_, t1), HeadView::Extern(_, t2)) = (h1, h2) {
                lemma_value_alpha_eq_sym(*t1, *t2);
            }
            lemma_head_alpha_unfold(h1, h2);
            lemma_head_alpha_unfold(h2, h1);
        },
        (NeutralView::If(c1, t1, e1), NeutralView::If(c2, t2, e2)) => {
            lemma_neutral_alpha_eq_sym(*c1, *c2);
            lemma_value_alpha_eq_sym(*t1, *t2);
            lemma_value_alpha_eq_sym(*e1, *e2);
        },
        (NeutralView::Proj(e1, _), NeutralView::Proj(e2, _)) => {
            lemma_neutral_alpha_eq_sym(*e1, *e2);
        },
        (NeutralView::Case(e1, c1), NeutralView::Case(e2, c2)) => {
            lemma_neutral_alpha_eq_sym(*e1, *e2);
            lemma_vclauses_alpha_eq_sym(c1, c2);
        },
        _ => {},
    }
}

proof fn lemma_vfields_alpha_eq_sym(a: Seq<ValueFieldView>, b: Seq<ValueFieldView>)
    ensures
        crate::alpha::vfields_alpha_eq(a, b) ==> crate::alpha::vfields_alpha_eq(b, a),
    decreases a,
{
    if a.len() > 0 && a.len() == b.len() {
        lemma_vfields_alpha_eq_sym(a.drop_last(), b.drop_last());
        lemma_value_alpha_eq_sym(a.last().value, b.last().value);
    }
}

proof fn lemma_vclauses_alpha_eq_sym(a: Seq<ValueClauseView>, b: Seq<ValueClauseView>)
    ensures
        crate::alpha::vclauses_alpha_eq(a, b) ==> crate::alpha::vclauses_alpha_eq(b, a),
    decreases a,
{
    if a.len() > 0 && a.len() == b.len() {
        lemma_vclauses_alpha_eq_sym(a.drop_last(), b.drop_last());
        lemma_pattern_alpha_eq_sym(a.last().pattern, b.last().pattern);
        lemma_value_alpha_eq_sym(a.last().body, b.last().body);
    }
}

proof fn lemma_values_alpha_eq_sym(a: Seq<ValueView>, b: Seq<ValueView>)
    ensures
        crate::alpha::values_alpha_eq(a, b) ==> crate::alpha::values_alpha_eq(b, a),
    decreases a,
{
    if a.len() > 0 && a.len() == b.len() {
        lemma_values_alpha_eq_sym(a.drop_last(), b.drop_last());
        lemma_value_alpha_eq_sym(a.last(), b.last());
    }
}

/// Alpha-equivalence of values is transitive.
pub proof fn lemma_value_alpha_eq_trans(a: ValueView, b: ValueView, c: ValueView)
    ensures
        crate::alpha::value_alpha_eq(a, b) && crate::alpha::value_alpha_eq(b, c)
            ==> crate::alpha::value_alpha_eq(a, c),
    decreases a,
{
    match (a, b, c) {
        (ValueView::Pi(s1), ValueView::Pi(s2), ValueView::Pi(s3)) => {
            lemma_value_alpha_eq_trans(*s1.ann, *s2.ann, *s3.ann);
            lemma_value_alpha_eq_trans(*s1.body, *s2.body, *s3.body);
            lemma_value_scope_alpha_unfold(s1, s2);
            lemma_value_scope_alpha_unfold(s2, s3);
            lemma_value_scope_alpha_unfold(s1, s3);
        },
        (ValueView::Lam(s1), ValueView::Lam(s2), ValueView::Lam(s3)) => {
            lemma_value_alpha_eq_trans(*s1.ann, *s2.ann, *s3.ann);
            lemma_value_alpha_eq_trans(*s1.body, *s2.body, *s3.body);
            lemma_value_scope_alpha_unfold(s1, s2);
            lemma_value_scope_alpha_unfold(s2, s3);
            lemma_value_scope_alpha_unfold(s1, s3);
        },
        (ValueView::RecordType(f1), ValueView::RecordType(f2), ValueView::RecordType(f3)) => {
            lemma_vfields_alpha_eq_trans(f1, f2, f3);
        },
        (ValueView::Record(f1), ValueView::Record(f2), ValueView::Record(f3)) => {
            lemma_vfields_alpha_eq_trans(f1, f2, f3);
        },
        (ValueView::Array(e1), ValueView::Array(e2), ValueView::Array(e3)) => {
            lemma_values_alpha_eq_trans(e1, e2, e3);
        },
        (ValueView::Neutral(n1, s1), ValueView::Neutral(n2, s2), ValueView::Neutral(n3, s3)) => {
            lemma_neutral_alpha_eq_trans(*n1, *n2, *n3);
            lemma_values_alpha_eq_trans(s1, s2, s3);
        },
        _ => {},
    }
}

proof fn lemma_neutral_alpha_eq_trans(a: NeutralView, b: NeutralView, c: NeutralView)
    ensures
        crate::alpha::neutral_alpha_eq(a, b) && crate::alpha::neutral_alpha_eq(b, c)
            ==> crate::alpha::neutral_alpha_eq(a, c),
    decreases a,
{
    match (a, b, c) {
        (NeutralView::Head(h1), NeutralView::Head(h2), NeutralView::Head(h3)) => {
            if let (
                HeadView::Extern(_, t1),
                HeadView::Extern(_, t2),
                HeadView::Extern(_, t3),
            ) = (h1, h2, h3) {
                lemma_value_alpha_eq_trans(*t1, *t2, *t3);
            }
            lemma_head_alpha_unfold(h1, h2);
            lemma_head_alpha_unfold(h2, h3);
            lemma_head_alpha_unfold(h1, h3);
        },
        (NeutralView::If(c1, t1, e1), NeutralView::If(c2, t2, e2), NeutralView::If(c3, t3, e3)) => {
            lemma_neutral_alpha_eq_trans(*c1, *c2, *c3);
            lemma_value_alpha_eq_trans(*t1, *t2, *t3);
            lemma_value_alpha_eq_trans(*e1, *e2, *e3);
        },
        (NeutralView::Proj(e1, _), NeutralView::Proj(e2, _), NeutralView::Proj(e3, _)) => {
            lemma_neutral_alpha_eq_trans(*e1, *e2, *e3);
        },
        (NeutralView::Case(e1, c1), NeutralView::Case(e2, c2), NeutralView::Case(e3, c3)) => {
            lemma_neutral_alpha_eq_trans(*e1, *e2, *e3);
            lemma_vclauses_alpha_eq_trans(c1, c2, c3);
        },
        _ => {},
    }
}

proof fn lemma_vfields_alpha_eq_trans(
    a: Seq<ValueFieldView>,
    b: Seq<ValueFieldView>,
    c: Seq<ValueFieldView>,
)
    ensures
        crate::alpha::vfields_alpha_eq(a, b) && crate::alpha::vfields_alpha_eq(b, c)
            ==> crate::alpha::vfields_alpha_eq(a, c),
    decreases a,
{
    if a.len() > 0 && a.len() == b.len() && b.len() == c.len() {
        lemma_vfields_alpha_eq_trans(a.drop_last(), b.drop_last(), c.drop_last());
        lemma_value_alpha_eq_trans(a.last().value, b.last().value, c.last().value);
    }
}

proof fn lemma_vclauses_alpha_eq_trans(
    a: Seq<ValueClauseView>,
    b: Seq<ValueClauseView>,
    c: Seq<ValueClauseView>,
)
    ensures
        crate::alpha::vclauses_alpha_eq(a, b) && crate::alpha::vclauses_alpha_eq(b, c)
            ==> crate::alpha::vclauses_alpha_eq(a, c),
    decreases a,
{
    if a.len() > 0 && a.len() == b.len() && b.len() == c.len() {
        lemma_vclauses_alpha_eq_trans(a.drop_last(), b.drop_last(), c.drop_last());
        lemma_pattern_alpha_eq_trans(a.last().pattern, b.last().pattern, c.last().pattern);
        lemma_value_alpha_eq_trans(a.last().body, b.last().body, c.last().body);
    }
}

proof fn lemma_values_alpha_eq_trans(a: Seq<ValueView>, b: Seq<ValueView>, c: Seq<ValueView>)
    ensures
        crate::alpha::values_alpha_eq(a, b) && crate::alpha::values_alpha_eq(b, c)
            ==> crate::alpha::values_alpha_eq(a, c),
    decreases a,
{
    if a.len() > 0 && a.len() == b.len() && b.len() == c.len() {
        lemma_values_alpha_eq_trans(a.drop_last(), b.drop_last(), c.drop_last());
        lemma_value_alpha_eq_trans(a.last(), b.last(), c.last());
    }
}

// ---------------------------------------------------------------------------
// The bind/unbind round trip: opening a closed body with fresh names and
// closing it again over those names reproduces the closed body up to
// alpha-equivalence.
// ---------------------------------------------------------------------------
/// The names all have pairwise distinct ids.
pub open spec fn distinct_ids(names: Seq<FreeVarView>) -> bool {
    forall|i: int, j: int|
        0 <= i < j < names.len() ==> (#[trigger] names[i]).id != (#[trigger] names[j]).id
}

/// None of the names occurs free in the term.
pub open spec fn none_free_in_term(t: TermView, names: Seq<FreeVarView>) -> bool {
    forall|i: int| 0 <= i < names.len() ==> !term_has_free(t, (#[trigger] names[i]).id)
}

pub open spec fn none_free_in_pattern(p: PatternView, names: Seq<FreeVarView>) -> bool {
    forall|i: int| 0 <= i < names.len() ==> !pattern_has_free(p, (#[trigger] names[i]).id)
}

pub open spec fn none_free_in_fields(fs: Seq<FieldView>, names: Seq<FreeVarView>) -> bool {
    forall|i: int| 0 <= i < names.len() ==> !fields_have_free(fs, (#[trigger] names[i]).id)
}

pub open spec fn none_free_in_clauses(cs: Seq<ClauseView>, names: Seq<FreeVarView>) -> bool {
    forall|i: int| 0 <= i < names.len() ==> !clauses_have_free(cs, (#[trigger] names[i]).id)
}

pub open spec fn none_free_in_terms(ts: Seq<TermView>, names: Seq<FreeVarView>) -> bool {
    forall|i: int| 0 <= i < names.len() ==> !terms_have_free(ts, (#[trigger] names[i]).id)
}

proof fn lemma_var_close_open(v: VarView, depth: u32, names: Seq<FreeVarView>)
    requires
        names.len() <= u32::MAX,
        distinct_ids(names),
        v matches VarView::Free(n) ==> forall|i: int|
            0 <= i < names.len() ==> (#[trigger] names[i]).id != n.id,
    ensures
        var_alpha_eq(
            crate::var::var_close_multi(
                crate::var::var_open_multi(v, depth, names),
                depth,
                names,
            ),
            v,
        ),
{
    match v {
        VarView::Free(n) => {
            lemma_find_binder(names, n.id);
        },
        VarView::Bound(b) => {
            if b.index.scope == depth && (b.index.binder as int) < names.len() {
                let k = b.index.binder as int;
                lemma_find_binder(names, names[k].id);
                let f = find_binder(names, names[k].id);
                if f < 0 {
                    assert(names[k].id == names[k].id);
                    assert(false);
                } else {
                    if f < k {
                        assert(names[f].id != names[k].id);
                        assert(false);
                    } else if f > k {
                        assert(names[k].id != names[k].id);
                        assert(false);
                    }
                }
            }
        },
    }
}

/// Opening a term with fresh, pairwise-distinct names and closing it again
/// over the same names reproduces the term up to alpha-equivalence (the
/// display names at the rewritten positions may differ; nothing else does).
pub proof fn lemma_close_open_roundtrip(t: TermView, depth: u32, names: Seq<FreeVarView>)
    requires
        names.len() <= u32::MAX,
        distinct_ids(names),
        none_free_in_term(t, names),
    ensures
        term_alpha_eq(term_close(term_open(t, depth, names), depth, names), t),
    decreases t,
{
    match t {
        TermView::Ann(a, ty) => {
            lemma_close_open_roundtrip(*a, depth, names);
            lemma_close_open_roundtrip(*ty, depth, names);
        },
        TermView::Universe(_) => {},
        TermView::Literal(_) => {},
        TermView::Var(v, shift) => {
            if let VarView::Free(n) = v {
                assert forall|i: int|
                    0 <= i < names.len() implies (#[trigger] names[i]).id != n.id by {
                    assert(!term_has_free(t, names[i].id));
                }
            }
            lemma_var_close_open(v, depth, names);
        },
        TermView::Extern(_, ty) => {
            lemma_close_open_roundtrip(*ty, depth, names);
        },
        TermView::Pi(s) => {
            assert forall|i: int|
                0 <= i < names.len() implies !term_has_free(*s.ann, (#[trigger] names[i]).id)
                    && !term_has_free(*s.body, names[i].id) by {
                assert(!term_has_free(t, names[i].id));
                lemma_scope_has_free_unfold(s, names[i].id);
            }
            lemma_close_open_roundtrip(*s.ann, depth, names);
            lemma_close_open_roundtrip(*s.body, (depth + 1) as u32, names);
            lemma_scope_open_unfold(s, depth, names);
            let so = scope_open(s, depth, names);
            lemma_scope_close_unfold(so, depth, names);
            lemma_scope_alpha_unfold(scope_close(so, depth, names), s);
        },
        TermView::Lam(s) => {
            assert forall|i: int|
                0 <= i < names.len() implies !term_has_free(*s.ann, (#[trigger] names[i]).id)
                    && !term_has_free(*s.body, names[i].id) by {
                assert(!term_has_free(t, names[i].id));
                lemma_scope_has_free_unfold(s, names[i].id);
            }
            lemma_close_open_roundtrip(*s.ann, depth, names);
            lemma_close_open_roundtrip(*s.body, (depth + 1) as u32, names);
            lemma_scope_open_unfold(s, depth, names);
            let so = scope_open(s, depth, names);
            lemma_scope_close_unfold(so, depth, names);
            lemma_scope_alpha_unfold(scope_close(so, depth, names), s);
        },
        TermView::App(f, a) => {
            lemma_close_open_roundtrip(*f, depth, names);
            lemma_close_open_roundtrip(*a, depth, names);
        },
        TermView::If(c, a, b) => {
            lemma_close_open_roundtrip(*c, depth, names);
            lemma_close_open_roundtrip(*a, depth, names);
            lemma_close_open_roundtrip(*b, depth, names);
        },
        TermView::RecordType(fs) => {
            lemma_fields_close_open_roundtrip(fs, (depth + 1) as u32, names);
        },
        TermView::Record(fs) => {
            lemma_fields_close_open_roundtrip(fs, (depth + 1) as u32, names);
        },
        TermView::Proj(e, _) => {
            lemma_close_open_roundtrip(*e, depth, names);
        },
        TermView::Case(s, cs) => {
            lemma_close_open_roundtrip(*s, depth, names);
            lemma_clauses_close_open_roundtrip(cs, depth, names);
        },
        TermView::Array(es) => {
            lemma_terms_close_open_roundtrip(es, depth, names);
        },
        TermView::Let(s) => {
            assert forall|i: int|
                0 <= i < names.len() implies !term_has_free(*s.ann, (#[trigger] names[i]).id)
                    && !term_has_free(*s.body, names[i].id) by {
                assert(!term_has_free(t, names[i].id));
                lemma_scope_has_free_unfold(s, names[i].id);
            }
            lemma_close_open_roundtrip(*s.ann, depth, names);
            lemma_close_open_roundtrip(*s.body, (depth + 1) as u32, names);
            lemma_scope_open_unfold(s, depth, names);
            let so = scope_open(s, depth, names);
            lemma_scope_close_unfold(so, depth, names);
            lemma_scope_alpha_unfold(scope_close(so, depth, names), s);
        },
    }
}

proof fn lemma_pattern_close_open_roundtrip(p: PatternView, depth: u32, names: Seq<FreeVarView>)
    requires
        names.len() <= u32::MAX,
        distinct_ids(names),
        none_free_in_pattern(p, names),
    ensures
        pattern_alpha_eq(pattern_close(pattern_open(p, depth, names), depth, names), p),
    decreases p,
{
    match p {
        PatternView::Ann(q, t) => {
            lemma_pattern_close_open_roundtrip(*q, depth, names);
            lemma_close_open_roundtrip(*t, depth, names);
        },
        PatternView::Binder(_) => {},
        PatternView::Var(v, _) => {
            if let VarView::Free(n) = v {
                assert forall|i: int|
                    0 <= i < names.len() implies (#[trigger] names[i]).id != n.id by {
                    assert(!pattern_has_free(p, names[i].id));
                }
            }
            lemma_var_close_open(v, depth, names);
        },
        PatternView::Literal(_) => {},
    }
}

proof fn lemma_fields_close_open_roundtrip(fs: Seq<FieldView>, depth: u32, names: Seq<FreeVarView>)
    requires
        names.len() <= u32::MAX,
        distinct_ids(names),
        none_free_in_fields(fs, names),
    ensures
        fields_alpha_eq(fields_close(fields_open(fs, depth, names), depth, names), fs),
    decreases fs,
{
    if fs.len() > 0 {
        lemma_fields_close_open_roundtrip(fs.drop_last(), depth, names);
        lemma_close_open_roundtrip(fs.last().ann, depth, names);
        let opened = fields_open(fs, depth, names);
        assert(opened.drop_last() =~= fields_open(fs.drop_last(), depth, names));
        assert(opened.last() == (FieldView {
            label: fs.last().label,
            binder: fs.last().binder,
            ann: term_open(fs.last().ann, depth, names),
        }));
        let closed = fields_close(opened, depth, names);
        assert(closed.drop_last() =~= fields_close(opened.drop_last(), depth, names));
        assert(closed.last() == (FieldView {
            label: opened.last().label,
            binder: opened.last().binder,
            ann: term_close(opened.last().ann, depth, names),
        }));
    }
}

proof fn lemma_clauses_close_open_roundtrip(
    cs: Seq<ClauseView>,
    depth: u32,
    names: Seq<FreeVarView>,
)
    requires
        names.len() <= u32::MAX,
        distinct_ids(names),
        none_free_in_clauses(cs, names),
    ensures
        clauses_alpha_eq(clauses_close(clauses_open(cs, depth, names), depth, names), cs),
    decreases cs,
{
    if cs.len() > 0 {
        lemma_clauses_close_open_roundtrip(cs.drop_last(), depth, names);
        lemma_pattern_close_open_roundtrip(cs.last().pattern, depth, names);
        lemma_close_open_roundtrip(cs.last().body, (depth + 1) as u32, names);
        let opened = clauses_open(cs, depth, names);
        assert(opened.drop_last() =~= clauses_open(cs.drop_last(), depth, names));
        assert(opened.last() == (ClauseView {
            pattern: pattern_open(cs.last().pattern, depth, names),
            body: term_open(cs.last().body, (depth + 1) as u32, names),
        }));
        let closed = clauses_close(opened, depth, names);
        assert(closed.drop_last() =~= clauses_close(opened.drop_last(), depth, names));
        assert(closed.last() == (ClauseView {
            pattern: pattern_close(opened.last().pattern, depth, names),
            body: term_close(opened.last().body, (depth + 1) as u32, names),
        }));
    }
}

proof fn lemma_terms_close_open_roundtrip(ts: Seq<TermView>, depth: u32, names: Seq<FreeVarView>)
    requires
        names.len() <= u32::MAX,
        distinct_ids(names),
        none_free_in_terms(ts, names),
    ensures
        terms_alpha_eq(terms_close(terms_open(ts, depth, names), depth, names), ts),
    decreases ts,
{
    if ts.len() > 0 {
        lemma_terms_close_open_roundtrip(ts.drop_last(), depth, names);
        lemma_close_open_roundtrip(ts.last(), depth, names);
        let opened = terms_open(ts, depth, names);
        assert(opened.drop_last() =~= terms_open(ts.drop_last(), depth, names));
        assert(opened.last() == term_open(ts.last(), depth, names));
        let closed = terms_close(opened, depth, names);
        assert(closed.drop_last() =~= terms_close(opened.drop_last(), depth, names));
        assert(closed.last() == term_close(opened.last(), depth, names));
    }
}

// ---------------------------------------------------------------------------
// The embedding of values into terms respects alpha-equivalence: two
// alpha-equivalent values re-quote to alpha-equivalent terms. (The full
// quote/eval round trip also involves the evaluator, which lives outside
// this core.)
// ---------------------------------------------------------------------------
proof fn lemma_value_scope_alpha_unfold(a: ValueScopeView, b: ValueScopeView)
    ensures
        crate::alpha::value_scope_alpha_eq(a, b) == (crate::alpha::value_alpha_eq(*a.ann, *b.ann)
            && crate::alpha::value_alpha_eq(*a.body, *b.body)),
{
}

/// Embedding a value into term syntax maps alpha-equivalent values to
/// alpha-equivalent terms.
pub proof fn lemma_embed_respects_alpha(a: ValueView, b: ValueView)
    ensures
        crate::alpha::value_alpha_eq(a, b) ==> term_alpha_eq(
            crate::value::value_to_term(a),
            crate::value::value_to_term(b),
        ),
    decreases a,
{
    match (a, b) {
        (ValueView::Pi(s1), ValueView::Pi(s2)) => {
            lemma_embed_respects_alpha(*s1.ann, *s2.ann);
            lemma_embed_respects_alpha(*s1.body, *s2.body);
            lemma_value_scope_alpha_unfold(s1, s2);
            lemma_scope_alpha_unfold(
                ScopeView {
                    binder: s1.binder,
                    ann: Box::new(crate::value::value_to_term(*s1.ann)),
                    body: Box::new(crate::value::value_to_term(*s1.body)),
                },
                ScopeView {
                    binder: s2.binder,
                    ann: Box::new(crate::value::value_to_term(*s2.ann)),
                    body: Box::new(crate::value::value_to_term(*s2.body)),
                },
            );
        },
        (ValueView::Lam(s1), ValueView::Lam(s2)) => {
            lemma_embed_respects_alpha(*s1.ann, *s2.ann);
            lemma_embed_respects_alpha(*s1.body, *s2.body);
            lemma_value_scope_alpha_unfold(s1, s2);
            lemma_scope_alpha_unfold(
                ScopeView {
                    binder: s1.binder,
                    ann: Box::new(crate::value::value_to_term(*s1.ann)),
                    body: Box::new(crate::value::value_to_term(*s1.body)),
                },
                ScopeView {
                    binder: s2.binder,
                    ann: Box::new(crate::value::value_to_term(*s2.ann)),
                    body: Box::new(crate::value::value_to_term(*s2.body)),
                },
            );
        },
        (ValueView::RecordType(f1), ValueView::RecordType(f2)) => {
            lemma_embed_fields_respect_alpha(f1, f2);
        },
        (ValueView::Record(f1), ValueView::Record(f2)) => {
            lemma_embed_fields_respect_alpha(f1, f2);
        },
        (ValueView::Array(e1), ValueView::Array(e2)) => {
            lemma_embed_values_respect_alpha(e1, e2);
        },
        (ValueView::Neutral(n1, s1), ValueView::Neutral(n2, s2)) => {
            lemma_embed_neutral_respects_alpha(*n1, *n2);
            lemma_embed_spine_respects_alpha(
                crate::value::neutral_to_term(*n1),
                crate::value::neutral_to_term(*n2),
                s1,
                s2,
            );
        },
        _ => {},
    }
}

proof fn lemma_embed_neutral_respects_alpha(a: NeutralView, b: NeutralView)
    ensures
        crate::alpha::neutral_alpha_eq(a, b) ==> term_alpha_eq(
            crate::value::neutral_to_term(a),
            crate::value::neutral_to_term(b),
        ),
    decreases a,
{
    match (a, b) {
        (NeutralView::Head(h1), NeutralView::Head(h2)) => {
            lemma_embed_head_respects_alpha(h1, h2);
        },
        (NeutralView::If(c1, t1, e1), NeutralView::If(c2, t2, e2)) => {
            lemma_embed_neutral_respects_alpha(*c1, *c2);
            lemma_embed_respects_alpha(*t1, *t2);
            lemma_embed_respects_alpha(*e1, *e2);
        },
        (NeutralView::Proj(e1, _), NeutralView::Proj(e2, _)) => {
            lemma_embed_neutral_respects_alpha(*e1, *e2);
        },
        (NeutralView::Case(e1, c1), NeutralView::Case(e2, c2)) => {
            lemma_embed_neutral_respects_alpha(*e1, *e2);
            lemma_embed_clauses_respect_alpha(c1, c2);
        },
        _ => {},
    }
}

proof fn lemma_embed_head_respects_alpha(a: HeadView, b: HeadView)
    ensures
        crate::alpha::head_alpha_eq(a, b) ==> term_alpha_eq(
            crate::value::head_to_term(a),
            crate::value::head_to_term(b),
        ),
    decreases a,
{
    match (a, b) {
        (HeadView::Extern(_, t1), HeadView::Extern(_, t2)) => {
            lemma_embed_respects_alpha(*t1, *t2);
        },
        _ => {},
    }
}

proof fn lemma_embed_spine_respects_alpha(
    b1: TermView,
    b2: TermView,
    s1: Seq<ValueView>,
    s2: Seq<ValueView>,
)
    ensures
        term_alpha_eq(b1, b2) && crate::alpha::values_alpha_eq(s1, s2) ==> term_alpha_eq(
            crate::value::spine_to_term(b1, s1),
            crate::value::spine_to_term(b2, s2),
        ),
    decreases s1,
{
    if term_alpha_eq(b1, b2) && crate::alpha::values_alpha_eq(s1, s2) && s1.len() > 0 {
        crate::alpha::lemma_values_alpha_eq_pointwise(s1, s2);
        crate::alpha::lemma_values_alpha_eq_pointwise(s1.drop_first(), s2.drop_first());
        assert forall|i: int| 0 <= i < s1.drop_first().len() implies crate::alpha::value_alpha_eq(
            #[trigger] s1.drop_first()[i],
            s2.drop_first()[i],
        ) by {
            assert(s1.drop_first()[i] == s1[i + 1]);
            assert(s2.drop_first()[i] == s2[i + 1]);
        }
        lemma_embed_respects_alpha(s1[0], s2[0]);
        lemma_embed_spine_respects_alpha(
            TermView::App(
                Box::new(b1),
                Box::new(crate::value::value_to_term(s1.first())),
            ),
            TermView::App(
                Box::new(b2),
                Box::new(crate::value::value_to_term(s2.first())),
            ),
            s1.drop_first(),
            s2.drop_first(),
        );
    }
}

proof fn lemma_embed_fields_respect_alpha(a: Seq<ValueFieldView>, b: Seq<ValueFieldView>)
    ensures
        crate::alpha::vfields_alpha_eq(a, b) ==> fields_alpha_eq(
            crate::value::vfields_to_fields(a),
            crate::value::vfields_to_fields(b),
        ),
    decreases a,
{
    if a.len() > 0 && a.len() == b.len() {
        lemma_embed_fields_respect_alpha(a.drop_last(), b.drop_last());
        lemma_embed_respects_alpha(a.last().value, b.last().value);
        let ea = crate::value::vfields_to_fields(a);
        let eb = crate::value::vfields_to_fields(b);
        assert(ea.drop_last() =~= crate::value::vfields_to_fields(a.drop_last()));
        assert(eb.drop_last() =~= crate::value::vfields_to_fields(b.drop_last()));
    }
}

proof fn lemma_embed_clauses_respect_alpha(a: Seq<ValueClauseView>, b: Seq<ValueClauseView>)
    ensures
        crate::alpha::vclauses_alpha_eq(a, b) ==> clauses_alpha_eq(
            crate::value::vclauses_to_clauses(a),
            crate::value::vclauses_to_clauses(b),
        ),
    decreases a,
{
    if a.len() > 0 && a.len() == b.len() {
        lemma_embed_clauses_respect_alpha(a.drop_last(), b.drop_last());
        lemma_embed_respects_alpha(a.last().body, b.last().body);
        let ea = crate::value::vclauses_to_clauses(a);
        let eb = crate::value::vclauses_to_clauses(b);
        assert(ea.drop_last() =~= crate::value::vclauses_to_clauses(a.drop_last()));
        assert(eb.drop_last() =~= crate::value::vclauses_to_clauses(b.drop_last()));
    }
}

proof fn lemma_embed_values_respect_alpha(a: Seq<ValueView>, b: Seq<ValueView>)
    ensures
        crate::alpha::values_alpha_eq(a, b) ==> terms_alpha_eq(
            crate::value::values_to_terms(a),
            crate::value::values_to_terms(b),
        ),
    decreases a,
{
    if a.len() > 0 && a.len() == b.len() {
        lemma_embed_values_respect_alpha(a.drop_last(), b.drop_last());
        lemma_embed_respects_alpha(a.last(), b.last());
        let ea = crate::value::values_to_terms(a);
        let eb = crate::value::values_to_terms(b);
        assert(ea.drop_last() =~= crate::value::values_to_terms(a.drop_last()));
        assert(eb.drop_last() =~= crate::value::values_to_terms(b.drop_last()));
    }
}

/// The bind/unbind round trip for a single-name scope: a scope stores
/// `term_close(body, 0, seq![x])`; unbinding it opens the stored body with a
/// fresh name `y`, and binding the opened body over `y` reproduces a stored
/// body alpha-equivalent to the first, provided `y` does not occur free in
/// it — which the fresh-name allocator guarantees.
pub proof fn lemma_bind_unbind_roundtrip(stored_body: TermView, y: FreeVarView)
    requires
        !term_has_free(stored_body, y.id),
    ensures
        term_alpha_eq(
            term_close(term_open(stored_body, 0, seq![y]), 0, seq![y]),
            stored_body,
        ),
{
    let names = seq![y];
    assert(names.len() == 1);
    assert(names[0] == y);
    lemma_close_open_roundtrip(stored_body, 0, names);
}

/// The same round trip, with freshness phrased as the allocator provides
/// it: if every free id in the stored body lies below the allocator's
/// counter, any name the allocator hands out from there on is fresh for the
/// body, and rebinding reproduces an alpha-equivalent scope.
pub proof fn lemma_bind_unbind_roundtrip_fresh(stored_body: TermView, bound: u64, y: FreeVarView)
    requires
        term_ids_below(stored_body, bound),
        y.id >= bound,
    ensures
        term_alpha_eq(
            term_close(term_open(stored_body, 0, seq![y]), 0, seq![y]),
            stored_body,
        ),
{
    lemma_ids_below_not_free(stored_body, bound, y.id);
    lemma_bind_unbind_roundtrip(stored_body, y);
}

} // verus!
