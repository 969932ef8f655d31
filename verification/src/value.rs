//! The value representation produced by evaluation: canonical forms, and
//! neutral terms — computations stuck on a head, with a spine of pending
//! arguments — together with the normal-form predicates, universe shifting,
//! and the embedding of values back into the term syntax.

use vstd::prelude::*;
use std::rc::Rc;
use crate::universe::{Label, Level, LevelShift};
use crate::var::{Binder, FreeVar, FreeVarView, Var, VarView};
use crate::term::{
    ClauseView, FieldView, Literal, LiteralView, PatternView, RcPattern, RcTerm, ScopeView, Term,
    TermView,
};

verus! {

/// A scope of the value representation, mirroring `term::Scope`.
#[derive(Debug, PartialEq, Eq)]
pub struct ValueScope {
    pub binder: Binder,
    pub ann: RcValue,
    pub body: RcValue,
}

/// One entry of a telescope of values.
#[derive(Debug, PartialEq, Eq)]
pub struct ValueField {
    pub label: Label,
    pub binder: Binder,
    pub value: RcValue,
}

/// One branch of a pending case dispatch.
#[derive(Debug, PartialEq, Eq)]
pub struct ValueClause {
    pub pattern: RcPattern,
    pub body: RcValue,
}

/// Values: either canonical forms, or a neutral term applied to a spine of
/// pending arguments.
#[derive(Debug, PartialEq, Eq)]
pub enum Value {
    /// Universes.
    Universe(Level),
    /// Literals.
    Literal(Literal),
    /// A pi type.
    Pi(ValueScope),
    /// A lambda abstraction.
    Lam(ValueScope),
    /// Dependent record types.
    RecordType(Vec<ValueField>),
    /// Dependent records.
    Record(Vec<ValueField>),
    /// Array literals.
    Array(Vec<RcValue>),
    /// A term whose computation has stopped because of an attempt to reduce
    /// an application whose head is stuck.
    Neutral(RcNeutral, Spine),
}

/// A reference-counted value; cloning is cheap and shares the node.
#[derive(Debug, PartialEq, Eq)]
pub struct RcValue {
    pub inner: Rc<Value>,
}

/// The head of a stuck application: a variable awaiting a definition, or an
/// external definition.
#[derive(Debug, PartialEq, Eq)]
pub enum Head {
    /// A variable that has not yet been replaced with a definition.
    Var(Var, LevelShift),
    /// An external definition, with its type.
    Extern(String, RcType),
}

/// The spine of a neutral term: arguments awaiting application, in order.
pub type Spine = Vec<RcValue>;

/// Neutral values: computations that might reduce further once the bindings
/// in the context are known.
#[derive(Debug, PartialEq, Eq)]
pub enum Neutral {
    /// The head of an application.
    Head(Head),
    /// A pending if expression over a neutral condition.
    If(RcNeutral, RcValue, RcValue),
    /// A pending field projection over a neutral base.
    Proj(RcNeutral, Label),
    /// A pending case dispatch over a neutral scrutinee.
    Case(RcNeutral, Vec<ValueClause>),
}

/// A reference-counted neutral value.
#[derive(Debug, PartialEq, Eq)]
pub struct RcNeutral {
    pub inner: Rc<Neutral>,
}

/// Types live at the term level, so this is just an alias.
pub type Type = Value;

/// Types live at the term level, so this is just an alias.
pub type RcType = RcValue;

// ---------------------------------------------------------------------------
// Views.
// ---------------------------------------------------------------------------
pub struct ValueScopeView {
    pub binder: FreeVarView,
    pub ann: Box<ValueView>,
    pub body: Box<ValueView>,
}

pub struct ValueFieldView {
    pub label: Seq<char>,
    pub binder: FreeVarView,
    pub value: ValueView,
}

pub struct ValueClauseView {
    pub pattern: PatternView,
    pub body: ValueView,
}

pub enum ValueView {
    Universe(Level),
    Literal(LiteralView),
    Pi(ValueScopeView),
    Lam(ValueScopeView),
    RecordType(Seq<ValueFieldView>),
    Record(Seq<ValueFieldView>),
    Array(Seq<ValueView>),
    Neutral(Box<NeutralView>, Seq<ValueView>),
}

pub enum HeadView {
    Var(VarView, LevelShift),
    Extern(Seq<char>, Box<ValueView>),
}

pub enum NeutralView {
    Head(HeadView),
    If(Box<NeutralView>, Box<ValueView>, Box<ValueView>),
    Proj(Box<NeutralView>, Seq<char>),
    Case(Box<NeutralView>, Seq<ValueClauseView>),
}

pub open spec fn value_view(v: Value) -> ValueView
    decreases v,
{
    match v {
        Value::Universe(level) => ValueView::Universe(level),
        Value::Literal(l) => ValueView::Literal(crate::term::literal_view(l)),
        Value::Pi(s) => ValueView::Pi(value_scope_view(s)),
        Value::Lam(s) => ValueView::Lam(value_scope_view(s)),
        Value::RecordType(fs) => ValueView::RecordType(vfield_views(fs@)),
        Value::Record(fs) => ValueView::Record(vfield_views(fs@)),
        Value::Array(es) => ValueView::Array(value_views(es@)),
        Value::Neutral(n, spine) => ValueView::Neutral(
            Box::new(neutral_view(*n.inner)),
            value_views(spine@),
        ),
    }
}

pub open spec fn value_scope_view(s: ValueScope) -> ValueScopeView
    decreases s,
{
    ValueScopeView {
        binder: s.binder@,
        ann: Box::new(value_view(*s.ann.inner)),
        body: Box::new(value_view(*s.body.inner)),
    }
}

pub open spec fn vfield_views(s: Seq<ValueField>) -> Seq<ValueFieldView>
    decreases s,
{
    if s.len() == 0 {
        Seq::empty()
    } else {
        vfield_views(s.drop_last()).push(
            ValueFieldView {
                label: s.last().label@,
                binder: s.last().binder@,
                value: value_view(*s.last().value.inner),
            },
        )
    }
}

pub open spec fn vclause_views(s: Seq<ValueClause>) -> Seq<ValueClauseView>
    decreases s,
{
    if s.len() == 0 {
        Seq::empty()
    } else {
        vclause_views(s.drop_last()).push(
            ValueClauseView {
                pattern: crate::term::pattern_view(*s.last().pattern.inner),
                body: value_view(*s.last().body.inner),
            },
        )
    }
}

pub open spec fn value_views(s: Seq<RcValue>) -> Seq<ValueView>
    decreases s,
{
    if s.len() == 0 {
        Seq::empty()
    } else {
        value_views(s.drop_last()).push(value_view(*s.last().inner))
    }
}

pub open spec fn head_view(h: Head) -> HeadView
    decreases h,
{
    match h {
        Head::Var(v, shift) => HeadView::Var(v@, shift),
        Head::Extern(name, ty) => HeadView::Extern(name@, Box::new(value_view(*ty.inner))),
    }
}

pub open spec fn neutral_view(n: Neutral) -> NeutralView
    decreases n,
{
    match n {
        Neutral::Head(h) => NeutralView::Head(head_view(h)),
        Neutral::If(c, a, b) => NeutralView::If(
            Box::new(neutral_view(*c.inner)),
            Box::new(value_view(*a.inner)),
            Box::new(value_view(*b.inner)),
        ),
        Neutral::Proj(e, label) => NeutralView::Proj(Box::new(neutral_view(*e.inner)), label@),
        Neutral::Case(e, clauses) => NeutralView::Case(
            Box::new(neutral_view(*e.inner)),
            vclause_views(clauses@),
        ),
    }
}

impl View for Value {
    type V = ValueView;

    open spec fn view(&self) -> ValueView {
        value_view(*self)
    }
}

impl View for RcValue {
    type V = ValueView;

    open spec fn view(&self) -> ValueView {
        value_view(*self.inner)
    }
}

impl View for Head {
    type V = HeadView;

    open spec fn view(&self) -> HeadView {
        head_view(*self)
    }
}

impl View for Neutral {
    type V = NeutralView;

    open spec fn view(&self) -> NeutralView {
        neutral_view(*self)
    }
}

impl View for RcNeutral {
    type V = NeutralView;

    open spec fn view(&self) -> NeutralView {
        neutral_view(*self.inner)
    }
}

pub proof fn lemma_vfield_views(s: Seq<ValueField>)
    ensures
        vfield_views(s).len() == s.len(),
        forall|i: int|
            0 <= i < s.len() ==> vfield_views(s)[i] == (ValueFieldView {
                label: (#[trigger] s[i]).label@,
                binder: s[i].binder@,
                value: value_view(*s[i].value.inner),
            }),
    decreases s,
{
    if s.len() > 0 {
        lemma_vfield_views(s.drop_last());
        assert forall|i: int| 0 <= i < s.len() - 1 implies s.drop_last()[i] == s[i] by {}
        assert(s.last() == s[s.len() - 1]);
    }
}

pub proof fn lemma_vclause_views(s: Seq<ValueClause>)
    ensures
        vclause_views(s).len() == s.len(),
        forall|i: int|
            0 <= i < s.len() ==> vclause_views(s)[i] == (ValueClauseView {
                pattern: crate::term::pattern_view(*(#[trigger] s[i]).pattern.inner),
                body: value_view(*s[i].body.inner),
            }),
    decreases s,
{
    if s.len() > 0 {
        lemma_vclause_views(s.drop_last());
        assert forall|i: int| 0 <= i < s.len() - 1 implies s.drop_last()[i] == s[i] by {}
        assert(s.last() == s[s.len() - 1]);
    }
}

pub proof fn lemma_value_views(s: Seq<RcValue>)
    ensures
        value_views(s).len() == s.len(),
        forall|i: int|
            0 <= i < s.len() ==> value_views(s)[i] == value_view(*(#[trigger] s[i]).inner),
    decreases s,
{
    if s.len() > 0 {
        lemma_value_views(s.drop_last());
        assert forall|i: int| 0 <= i < s.len() - 1 implies s.drop_last()[i] == s[i] by {}
        assert(s.last() == s[s.len() - 1]);
    }
}

impl Clone for RcValue {
    /// Cloning shares the node: the copy is the same value.
    fn clone(&self) -> (r: Self)
        ensures
            r == *self,
    {
        RcValue { inner: self.inner.clone() }
    }
}

impl Clone for RcNeutral {
    /// Cloning shares the node: the copy is the same neutral.
    fn clone(&self) -> (r: Self)
        ensures
            r == *self,
    {
        RcNeutral { inner: self.inner.clone() }
    }
}

impl RcValue {
    /// Wrap a value in a reference-counted node.
    pub fn new(value: Value) -> (r: RcValue)
        ensures
            r@ == value@,
    {
        RcValue { inner: Rc::new(value) }
    }
}

impl RcNeutral {
    /// Wrap a neutral in a reference-counted node.
    pub fn new(neutral: Neutral) -> (r: RcNeutral)
        ensures
            r@ == neutral@,
    {
        RcNeutral { inner: Rc::new(neutral) }
    }
}

impl Neutral {
    /// The neutral consisting of a bare variable head.
    pub fn var(var: Var, shift: LevelShift) -> (r: Neutral)
        ensures
            r@ == NeutralView::Head(HeadView::Var(var@, shift)),
    {
        proof {
            assert(head_view(Head::Var(var, shift)) == HeadView::Var(var@, shift));
        }
        Neutral::Head(Head::Var(var, shift))
    }
}

// ---------------------------------------------------------------------------
// Normal-form predicates.
// ---------------------------------------------------------------------------
/// A value is in weak head normal form exactly when it is not neutral: its
/// outermost form cannot be reduced, though subterms may still be.
pub open spec fn value_is_whnf(v: ValueView) -> bool {
    !(v is Neutral)
}

/// A value is in (full) normal form when no subterm at any depth is neutral.
pub open spec fn value_is_nf(v: ValueView) -> bool
    decreases v,
{
    match v {
        ValueView::Universe(_) => true,
        ValueView::Literal(_) => true,
        ValueView::Pi(s) => value_is_nf(*s.ann) && value_is_nf(*s.body),
        ValueView::Lam(s) => value_is_nf(*s.ann) && value_is_nf(*s.body),
        ValueView::RecordType(fs) => vfields_nf(fs),
        ValueView::Record(fs) => vfields_nf(fs),
        ValueView::Array(es) => values_nf(es),
        ValueView::Neutral(_, _) => false,
    }
}

pub open spec fn vfields_nf(fs: Seq<ValueFieldView>) -> bool
    decreases fs,
{
    fs.len() == 0 || (vfields_nf(fs.drop_last()) && value_is_nf(fs.last().value))
}

pub open spec fn values_nf(es: Seq<ValueView>) -> bool
    decreases es,
{
    es.len() == 0 || (values_nf(es.drop_last()) && value_is_nf(es.last()))
}

pub proof fn lemma_vfields_nf(fs: Seq<ValueFieldView>)
    ensures
        vfields_nf(fs) <==> forall|i: int|
            0 <= i < fs.len() ==> value_is_nf((#[trigger] fs[i]).value),
    decreases fs,
{
    if fs.len() > 0 {
        lemma_vfields_nf(fs.drop_last());
        assert forall|i: int| 0 <= i < fs.len() - 1 implies fs.drop_last()[i] == fs[i] by {}
        assert(fs.last() == fs[fs.len() - 1]);
    }
}

pub proof fn lemma_values_nf(es: Seq<ValueView>)
    ensures
        values_nf(es) <==> forall|i: int| 0 <= i < es.len() ==> value_is_nf(#[trigger] es[i]),
    decreases es,
{
    if es.len() > 0 {
        lemma_values_nf(es.drop_last());
        assert forall|i: int| 0 <= i < es.len() - 1 implies es.drop_last()[i] == es[i] by {}
        assert(es.last() == es[es.len() - 1]);
    }
}

impl Value {
    /// A universe at the given level.
    pub fn universe(level: Level) -> (r: Value)
        ensures
            r@ == ValueView::Universe(level),
    {
        Value::Universe(level)
    }

    /// The neutral value consisting of a bare variable with an empty spine.
    pub fn var(var: Var, shift: LevelShift) -> (r: Value)
        ensures
            r@ == ValueView::Neutral(
                Box::new(NeutralView::Head(HeadView::Var(var@, shift))),
                Seq::empty(),
            ),
    {
        let spine: Spine = Vec::new();
        proof {
            assert(value_views(spine@) =~= Seq::<ValueView>::empty());
        }
        Value::Neutral(RcNeutral::new(Neutral::var(var, shift)), spine)
    }

    /// Whether the value is in weak head normal form.
    pub fn is_whnf(&self) -> (r: bool)
        ensures
            r == value_is_whnf(self@),
    {
        match self {
            Value::Universe(_) => true,
            Value::Literal(_) => true,
            Value::Pi(_) => true,
            Value::Lam(_) => true,
            Value::RecordType(_) => true,
            Value::Record(_) => true,
            Value::Array(_) => true,
            Value::Neutral(_, _) => false,
        }
    }

    /// Whether the value is in normal form: no neutral subterm at any depth.
    pub fn is_nf(&self) -> (r: bool)
        ensures
            r == value_is_nf(self@),
        decreases *self,
    {
        match self {
            Value::Universe(_) => true,
            Value::Literal(_) => true,
            Value::Pi(s) => rc_value_is_nf(&s.ann) && rc_value_is_nf(&s.body),
            Value::Lam(s) => rc_value_is_nf(&s.ann) && rc_value_is_nf(&s.body),
            Value::RecordType(fs) => vfields_nf_exec(fs),
            Value::Record(fs) => vfields_nf_exec(fs),
            Value::Array(es) => values_nf_exec(es),
            Value::Neutral(_, _) => false,
        }
    }

    /// The stuck head and its argument spine, for a value that is a bare
    /// neutral application — not one wrapped in a pending conditional,
    /// projection or case dispatch.
    pub fn head_app(&self) -> (r: Option<(&Head, &Spine)>)
        ensures
            match r {
                Some(p) => value_head_app(self@) == Some((p.0@, value_views(p.1@))),
                None => value_head_app(self@) is None,
            },
    {
        if let Value::Neutral(neutral, spine) = self {
            proof {
                assert(self@ == ValueView::Neutral(
                    Box::new(neutral_view(*neutral.inner)),
                    value_views(spine@),
                ));
            }
            if let Neutral::Head(head) = &*neutral.inner {
                proof {
                    assert(neutral_view(*neutral.inner) == NeutralView::Head(head_view(*head)));
                }
                return Some((head, spine));
            }
        }
        None
    }

    /// Specializes `head_app` to a head that is a free variable: the value
    /// is stuck on an undefined or abstract name.
    pub fn free_var_app(&self) -> (r: Option<(&FreeVar, LevelShift, &Spine)>)
        ensures
            match r {
                Some(p) => value_free_var_app(self@) == Some(
                    (p.0@, p.1, value_views(p.2@)),
                ),
                None => value_free_var_app(self@) is None,
            },
    {
        if let Value::Neutral(neutral, spine) = self {
            proof {
                assert(self@ == ValueView::Neutral(
                    Box::new(neutral_view(*neutral.inner)),
                    value_views(spine@),
                ));
            }
            if let Neutral::Head(head) = &*neutral.inner {
                proof {
                    assert(neutral_view(*neutral.inner) == NeutralView::Head(head_view(*head)));
                }
                if let Head::Var(Var::Free(free_var), shift) = head {
                    proof {
                        assert(head_view(*head) == HeadView::Var(VarView::Free(free_var@), *shift));
                    }
                    return Some((free_var, *shift, spine));
                }
            }
        }
        None
    }
}

/// The head and spine of a bare neutral application, if the value is one.
pub open spec fn value_head_app(v: ValueView) -> Option<(HeadView, Seq<ValueView>)> {
    match v {
        ValueView::Neutral(n, spine) => match *n {
            NeutralView::Head(h) => Some((h, spine)),
            _ => None,
        },
        _ => None,
    }
}

/// The free variable, shift and spine of a value stuck on a free variable.
pub open spec fn value_free_var_app(v: ValueView) -> Option<
    (FreeVarView, LevelShift, Seq<ValueView>),
> {
    match value_head_app(v) {
        Some(p) => match p.0 {
            HeadView::Var(VarView::Free(n), shift) => Some((n, shift, p.1)),
            _ => None,
        },
        None => None,
    }
}

fn rc_value_is_nf(v: &RcValue) -> (r: bool)
    ensures
        r == value_is_nf(v@),
    decreases *v,
{
    (*v.inner).is_nf()
}

#[verifier::loop_isolation(false)]
fn vfields_nf_exec(fs: &Vec<ValueField>) -> (r: bool)
    ensures
        r == vfields_nf(vfield_views(fs@)),
    decreases fs@,
{
    proof {
        lemma_vfield_views(fs@);
        lemma_vfields_nf(vfield_views(fs@));
    }
    let mut i: usize = 0;
    while i < fs.len()
        invariant
            i <= fs@.len(),
            forall|j: int| 0 <= j < i ==> value_is_nf((#[trigger] vfield_views(fs@)[j]).value),
        decreases fs@.len() - i,
    {
        proof {
            assert(decreases_to!(fs@ => fs@[i as int]));
        }
        if !rc_value_is_nf(&fs[i].value) {
            return false;
        }
        i = i + 1;
    }
    true
}

#[verifier::loop_isolation(false)]
fn values_nf_exec(es: &Vec<RcValue>) -> (r: bool)
    ensures
        r == values_nf(value_views(es@)),
    decreases es@,
{
    proof {
        lemma_value_views(es@);
        lemma_values_nf(value_views(es@));
    }
    let mut i: usize = 0;
    while i < es.len()
        invariant
            i <= es@.len(),
            forall|j: int| 0 <= j < i ==> value_is_nf(#[trigger] value_views(es@)[j]),
        decreases es@.len() - i,
    {
        proof {
            assert(decreases_to!(es@ => es@[i as int]));
        }
        if !rc_value_is_nf(&es[i]) {
            return false;
        }
        i = i + 1;
    }
    true
}

// ---------------------------------------------------------------------------
// Universe shifting: add a shift to every universe level reachable in a
// value. The shift stored on a variable head is deliberately left untouched,
// and the patterns of pending case branches are not shifted, mirroring the
// as-is behaviour of the reference semantics.
// ---------------------------------------------------------------------------
/// Every universe level that shifting would touch still fits in the level
/// type after adding `s`.
pub open spec fn value_shift_ok(v: ValueView, s: LevelShift) -> bool
    decreases v,
{
    match v {
        ValueView::Universe(l) => l.0 + s.0 <= u32::MAX,
        ValueView::Literal(_) => true,
        ValueView::Pi(sc) => value_shift_ok(*sc.ann, s) && value_shift_ok(*sc.body, s),
        ValueView::Lam(sc) => value_shift_ok(*sc.ann, s) && value_shift_ok(*sc.body, s),
        ValueView::RecordType(fs) => vfields_shift_ok(fs, s),
        ValueView::Record(fs) => vfields_shift_ok(fs, s),
        ValueView::Array(es) => values_shift_ok(es, s),
        ValueView::Neutral(n, spine) => neutral_shift_ok(*n, s) && values_shift_ok(spine, s),
    }
}

pub open spec fn neutral_shift_ok(n: NeutralView, s: LevelShift) -> bool
    decreases n,
{
    match n {
        NeutralView::Head(HeadView::Var(_, _)) => true,
        NeutralView::Head(HeadView::Extern(_, ty)) => value_shift_ok(*ty, s),
        NeutralView::If(c, a, b) => neutral_shift_ok(*c, s) && value_shift_ok(*a, s)
            && value_shift_ok(*b, s),
        NeutralView::Proj(e, _) => neutral_shift_ok(*e, s),
        NeutralView::Case(e, cs) => neutral_shift_ok(*e, s) && vclauses_shift_ok(cs, s),
    }
}

pub open spec fn vfields_shift_ok(fs: Seq<ValueFieldView>, s: LevelShift) -> bool
    decreases fs,
{
    fs.len() == 0 || (vfields_shift_ok(fs.drop_last(), s) && value_shift_ok(fs.last().value, s))
}

pub open spec fn vclauses_shift_ok(cs: Seq<ValueClauseView>, s: LevelShift) -> bool
    decreases cs,
{
    cs.len() == 0 || (vclauses_shift_ok(cs.drop_last(), s) && value_shift_ok(cs.last().body, s))
}

pub open spec fn values_shift_ok(es: Seq<ValueView>, s: LevelShift) -> bool
    decreases es,
{
    es.len() == 0 || (values_shift_ok(es.drop_last(), s) && value_shift_ok(es.last(), s))
}

/// The value with `s` added to every reachable universe level.
pub open spec fn value_shift(v: ValueView, s: LevelShift) -> ValueView
    decreases v,
{
    match v {
        ValueView::Universe(l) => ValueView::Universe(Level((l.0 + s.0) as u32)),
        ValueView::Literal(_) => v,
        ValueView::Pi(sc) => ValueView::Pi(
            ValueScopeView {
                binder: sc.binder,
                ann: Box::new(value_shift(*sc.ann, s)),
                body: Box::new(value_shift(*sc.body, s)),
            },
        ),
        ValueView::Lam(sc) => ValueView::Lam(
            ValueScopeView {
                binder: sc.binder,
                ann: Box::new(value_shift(*sc.ann, s)),
                body: Box::new(value_shift(*sc.body, s)),
            },
        ),
        ValueView::RecordType(fs) => ValueView::RecordType(vfields_shift(fs, s)),
        ValueView::Record(fs) => ValueView::Record(vfields_shift(fs, s)),
        ValueView::Array(es) => ValueView::Array(values_shift(es, s)),
        ValueView::Neutral(n, spine) => ValueView::Neutral(
            Box::new(neutral_shift(*n, s)),
            values_shift(spine, s),
        ),
    }
}

pub open spec fn neutral_shift(n: NeutralView, s: LevelShift) -> NeutralView
    decreases n,
{
    match n {
        NeutralView::Head(HeadView::Var(_, _)) => n,
        NeutralView::Head(HeadView::Extern(name, ty)) => NeutralView::Head(
            HeadView::Extern(name, Box::new(value_shift(*ty, s))),
        ),
        NeutralView::If(c, a, b) => NeutralView::If(
            Box::new(neutral_shift(*c, s)),
            Box::new(value_shift(*a, s)),
            Box::new(value_shift(*b, s)),
        ),
        NeutralView::Proj(e, label) => NeutralView::Proj(Box::new(neutral_shift(*e, s)), label),
        NeutralView::Case(e, cs) => NeutralView::Case(
            Box::new(neutral_shift(*e, s)),
            vclauses_shift(cs, s),
        ),
    }
}

pub open spec fn vfields_shift(fs: Seq<ValueFieldView>, s: LevelShift) -> Seq<ValueFieldView>
    decreases fs,
{
    if fs.len() == 0 {
        Seq::empty()
    } else {
        vfields_shift(fs.drop_last(), s).push(
            ValueFieldView {
                label: fs.last().label,
                binder: fs.last().binder,
                value: value_shift(fs.last().value, s),
            },
        )
    }
}

pub open spec fn vclauses_shift(cs: Seq<ValueClauseView>, s: LevelShift) -> Seq<ValueClauseView>
    decreases cs,
{
    if cs.len() == 0 {
        Seq::empty()
    } else {
        vclauses_shift(cs.drop_last(), s).push(
            ValueClauseView { pattern: cs.last().pattern, body: value_shift(cs.last().body, s) },
        )
    }
}

pub open spec fn values_shift(es: Seq<ValueView>, s: LevelShift) -> Seq<ValueView>
    decreases es,
{
    if es.len() == 0 {
        Seq::empty()
    } else {
        values_shift(es.drop_last(), s).push(value_shift(es.last(), s))
    }
}

pub proof fn lemma_vfields_shift_ok(fs: Seq<ValueFieldView>, s: LevelShift)
    ensures
        vfields_shift_ok(fs, s) <==> forall|i: int|
            0 <= i < fs.len() ==> value_shift_ok((#[trigger] fs[i]).value, s),
    decreases fs,
{
    if fs.len() > 0 {
        lemma_vfields_shift_ok(fs.drop_last(), s);
        assert forall|i: int| 0 <= i < fs.len() - 1 implies fs.drop_last()[i] == fs[i] by {}
        assert(fs.last() == fs[fs.len() - 1]);
    }
}

pub proof fn lemma_vclauses_shift_ok(cs: Seq<ValueClauseView>, s: LevelShift)
    ensures
        vclauses_shift_ok(cs, s) <==> forall|i: int|
            0 <= i < cs.len() ==> value_shift_ok((#[trigger] cs[i]).body, s),
    decreases cs,
{
    if cs.len() > 0 {
        lemma_vclauses_shift_ok(cs.drop_last(), s);
        assert forall|i: int| 0 <= i < cs.len() - 1 implies cs.drop_last()[i] == cs[i] by {}
        assert(cs.last() == cs[cs.len() - 1]);
    }
}

pub proof fn lemma_values_shift_ok(es: Seq<ValueView>, s: LevelShift)
    ensures
        values_shift_ok(es, s) <==> forall|i: int|
            0 <= i < es.len() ==> value_shift_ok(#[trigger] es[i], s),
    decreases es,
{
    if es.len() > 0 {
        lemma_values_shift_ok(es.drop_last(), s);
        assert forall|i: int| 0 <= i < es.len() - 1 implies es.drop_last()[i] == es[i] by {}
        assert(es.last() == es[es.len() - 1]);
    }
}

pub proof fn lemma_vfields_shift(fs: Seq<ValueFieldView>, s: LevelShift)
    ensures
        vfields_shift(fs, s).len() == fs.len(),
        forall|i: int|
            0 <= i < fs.len() ==> vfields_shift(fs, s)[i] == (ValueFieldView {
                label: (#[trigger] fs[i]).label,
                binder: fs[i].binder,
                value: value_shift(fs[i].value, s),
            }),
    decreases fs,
{
    if fs.len() > 0 {
        lemma_vfields_shift(fs.drop_last(), s);
        assert forall|i: int| 0 <= i < fs.len() - 1 implies fs.drop_last()[i] == fs[i] by {}
        assert(fs.last() == fs[fs.len() - 1]);
    }
}

pub proof fn lemma_vclauses_shift(cs: Seq<ValueClauseView>, s: LevelShift)
    ensures
        vclauses_shift(cs, s).len() == cs.len(),
        forall|i: int|
            0 <= i < cs.len() ==> vclauses_shift(cs, s)[i] == (ValueClauseView {
                pattern: (#[trigger] cs[i]).pattern,
                body: value_shift(cs[i].body, s),
            }),
    decreases cs,
{
    if cs.len() > 0 {
        lemma_vclauses_shift(cs.drop_last(), s);
        assert forall|i: int| 0 <= i < cs.len() - 1 implies cs.drop_last()[i] == cs[i] by {}
        assert(cs.last() == cs[cs.len() - 1]);
    }
}

pub proof fn lemma_values_shift(es: Seq<ValueView>, s: LevelShift)
    ensures
        values_shift(es, s).len() == es.len(),
        forall|i: int|
            0 <= i < es.len() ==> values_shift(es, s)[i] == value_shift(#[trigger] es[i], s),
    decreases es,
{
    if es.len() > 0 {
        lemma_values_shift(es.drop_last(), s);
        assert forall|i: int| 0 <= i < es.len() - 1 implies es.drop_last()[i] == es[i] by {}
        assert(es.last() == es[es.len() - 1]);
    }
}

impl RcValue {
    /// Add `shift` to every universe level reachable in this value. Sharing
    /// is never observed: the rewritten tree is freshly built, so any other
    /// holder of a shared subtree keeps the original.
    pub fn shift_universes(&mut self, shift: LevelShift)
        requires
            value_shift_ok(old(self)@, shift),
        ensures
            final(self)@ == value_shift(old(self)@, shift),
    {
        let shifted = shifted_value(self, shift);
        *self = shifted;
    }
}

impl RcNeutral {
    /// Add `shift` to every universe level reachable in this neutral. The
    /// shift stored on a variable head is left untouched, and the patterns of
    /// pending case branches are not shifted.
    pub fn shift_universes(&mut self, shift: LevelShift)
        requires
            neutral_shift_ok(old(self)@, shift),
        ensures
            final(self)@ == neutral_shift(old(self)@, shift),
    {
        let shifted = shifted_neutral(self, shift);
        *self = shifted;
    }
}

fn shifted_value(v: &RcValue, shift: LevelShift) -> (r: RcValue)
    requires
        value_shift_ok(v@, shift),
    ensures
        r@ == value_shift(v@, shift),
    decreases *v,
{
    match &*v.inner {
        Value::Universe(level) => RcValue::new(Value::Universe(Level(level.0 + shift.0))),
        Value::Literal(_) => v.clone(),
        Value::Pi(sc) => RcValue::new(
            Value::Pi(
                ValueScope {
                    binder: sc.binder.clone(),
                    ann: shifted_value(&sc.ann, shift),
                    body: shifted_value(&sc.body, shift),
                },
            ),
        ),
        Value::Lam(sc) => RcValue::new(
            Value::Lam(
                ValueScope {
                    binder: sc.binder.clone(),
                    ann: shifted_value(&sc.ann, shift),
                    body: shifted_value(&sc.body, shift),
                },
            ),
        ),
        Value::RecordType(fs) => RcValue::new(Value::RecordType(shifted_vfields(fs, shift))),
        Value::Record(fs) => RcValue::new(Value::Record(shifted_vfields(fs, shift))),
        Value::Array(es) => RcValue::new(Value::Array(shifted_values(es, shift))),
        Value::Neutral(n, spine) => RcValue::new(
            Value::Neutral(shifted_neutral(n, shift), shifted_values(spine, shift)),
        ),
    }
}

fn shifted_neutral(n: &RcNeutral, shift: LevelShift) -> (r: RcNeutral)
    requires
        neutral_shift_ok(n@, shift),
    ensures
        r@ == neutral_shift(n@, shift),
    decreases *n,
{
    match &*n.inner {
        Neutral::Head(h) => {
            proof {
                assert(n@ == NeutralView::Head(head_view(*h)));
            }
            match h {
                Head::Var(_, _) => n.clone(),
                Head::Extern(name, ty) => {
                    proof {
                        assert(head_view(*h) == HeadView::Extern(
                            name@,
                            Box::new(value_view(*ty.inner)),
                        ));
                    }
                    let new_head = Head::Extern(name.clone(), shifted_value(ty, shift));
                    proof {
                        assert(head_view(new_head) == HeadView::Extern(
                            name@,
                            Box::new(value_shift(value_view(*ty.inner), shift)),
                        ));
                    }
                    RcNeutral::new(Neutral::Head(new_head))
                },
            }
        },
        Neutral::If(c, a, b) => RcNeutral::new(
            Neutral::If(
                shifted_neutral(c, shift),
                shifted_value(a, shift),
                shifted_value(b, shift),
            ),
        ),
        Neutral::Proj(e, label) => RcNeutral::new(
            Neutral::Proj(shifted_neutral(e, shift), label.clone()),
        ),
        Neutral::Case(e, clauses) => RcNeutral::new(
            Neutral::Case(shifted_neutral(e, shift), shifted_vclauses(clauses, shift)),
        ),
    }
}

#[verifier::loop_isolation(false)]
fn shifted_vfields(fs: &Vec<ValueField>, shift: LevelShift) -> (r: Vec<ValueField>)
    requires
        vfields_shift_ok(vfield_views(fs@), shift),
    ensures
        vfield_views(r@) == vfields_shift(vfield_views(fs@), shift),
    decreases fs@,
{
    proof {
        lemma_vfield_views(fs@);
        lemma_vfields_shift_ok(vfield_views(fs@), shift);
    }
    let mut out: Vec<ValueField> = Vec::new();
    let mut i: usize = 0;
    while i < fs.len()
        invariant
            i <= fs@.len(),
            out@.len() == i,
            forall|j: int|
                0 <= j < i ==> (#[trigger] out@[j]).label@ == fs@[j].label@ && out@[j].binder@
                    == fs@[j].binder@ && value_view(*out@[j].value.inner) == value_shift(
                    value_view(*fs@[j].value.inner),
                    shift,
                ),
        decreases fs@.len() - i,
    {
        proof {
            assert(decreases_to!(fs@ => fs@[i as int]));
            assert(vfield_views(fs@)[i as int] == (ValueFieldView {
                label: fs@[i as int].label@,
                binder: fs@[i as int].binder@,
                value: value_view(*fs@[i as int].value.inner),
            }));
        }
        let f = &fs[i];
        let newf = ValueField {
            label: f.label.clone(),
            binder: f.binder.clone(),
            value: shifted_value(&f.value, shift),
        };
        out.push(newf);
        i = i + 1;
    }
    proof {
        lemma_vfield_views(out@);
        lemma_vfields_shift(vfield_views(fs@), shift);
        assert forall|k: int|
            0 <= k < out@.len() implies vfield_views(out@)[k] == vfields_shift(
            vfield_views(fs@),
            shift,
        )[k] by {
            assert(vfield_views(out@)[k] == (ValueFieldView {
                label: out@[k].label@,
                binder: out@[k].binder@,
                value: value_view(*out@[k].value.inner),
            }));
            assert(vfield_views(fs@)[k] == (ValueFieldView {
                label: fs@[k].label@,
                binder: fs@[k].binder@,
                value: value_view(*fs@[k].value.inner),
            }));
        }
        assert(vfield_views(out@) =~= vfields_shift(vfield_views(fs@), shift));
    }
    out
}

#[verifier::loop_isolation(false)]
fn shifted_vclauses(cs: &Vec<ValueClause>, shift: LevelShift) -> (r: Vec<ValueClause>)
    requires
        vclauses_shift_ok(vclause_views(cs@), shift),
    ensures
        vclause_views(r@) == vclauses_shift(vclause_views(cs@), shift),
    decreases cs@,
{
    proof {
        lemma_vclause_views(cs@);
        lemma_vclauses_shift_ok(vclause_views(cs@), shift);
    }
    let mut out: Vec<ValueClause> = Vec::new();
    let mut i: usize = 0;
    while i < cs.len()
        invariant
            i <= cs@.len(),
            out@.len() == i,
            forall|j: int|
                0 <= j < i ==> crate::term::pattern_view(*(#[trigger] out@[j]).pattern.inner)
                    == crate::term::pattern_view(*cs@[j].pattern.inner) && value_view(
                    *out@[j].body.inner,
                ) == value_shift(value_view(*cs@[j].body.inner), shift),
        decreases cs@.len() - i,
    {
        proof {
            assert(decreases_to!(cs@ => cs@[i as int]));
            assert(vclause_views(cs@)[i as int] == (ValueClauseView {
                pattern: crate::term::pattern_view(*cs@[i as int].pattern.inner),
                body: value_view(*cs@[i as int].body.inner),
            }));
        }
        let c = &cs[i];
        // The pattern is deliberately not shifted.
        let newc = ValueClause {
            pattern: c.pattern.clone(),
            body: shifted_value(&c.body, shift),
        };
        out.push(newc);
        i = i + 1;
    }
    proof {
        lemma_vclause_views(out@);
        lemma_vclauses_shift(vclause_views(cs@), shift);
        assert forall|k: int|
            0 <= k < out@.len() implies vclause_views(out@)[k] == vclauses_shift(
            vclause_views(cs@),
            shift,
        )[k] by {
            assert(vclause_views(out@)[k] == (ValueClauseView {
                pattern: crate::term::pattern_view(*out@[k].pattern.inner),
                body: value_view(*out@[k].body.inner),
            }));
            assert(vclause_views(cs@)[k] == (ValueClauseView {
                pattern: crate::term::pattern_view(*cs@[k].pattern.inner),
                body: value_view(*cs@[k].body.inner),
            }));
        }
        assert(vclause_views(out@) =~= vclauses_shift(vclause_views(cs@), shift));
    }
    out
}

#[verifier::loop_isolation(false)]
fn shifted_values(es: &Vec<RcValue>, shift: LevelShift) -> (r: Vec<RcValue>)
    requires
        values_shift_ok(value_views(es@), shift),
    ensures
        value_views(r@) == values_shift(value_views(es@), shift),
    decreases es@,
{
    proof {
        lemma_value_views(es@);
        lemma_values_shift_ok(value_views(es@), shift);
    }
    let mut out: Vec<RcValue> = Vec::new();
    let mut i: usize = 0;
    while i < es.len()
        invariant
            i <= es@.len(),
            out@.len() == i,
            forall|j: int|
                0 <= j < i ==> value_view(*(#[trigger] out@[j]).inner) == value_shift(
                    value_view(*es@[j].inner),
                    shift,
                ),
        decreases es@.len() - i,
    {
        proof {
            assert(decreases_to!(es@ => es@[i as int]));
            assert(value_views(es@)[i as int] == value_view(*es@[i as int].inner));
        }
        let e = shifted_value(&es[i], shift);
        out.push(e);
        i = i + 1;
    }
    proof {
        lemma_value_views(out@);
        lemma_values_shift(value_views(es@), shift);
        assert forall|k: int|
            0 <= k < out@.len() implies value_views(out@)[k] == values_shift(
            value_views(es@),
            shift,
        )[k] by {
            assert(value_views(out@)[k] == value_view(*out@[k].inner));
            assert(value_views(es@)[k] == value_view(*es@[k].inner));
        }
        assert(value_views(out@) =~= values_shift(value_views(es@), shift));
    }
    out
}

// ---------------------------------------------------------------------------
// Embedding values back into the term syntax. The applications of a spine
// are rebuilt by folding application nodes onto the re-quoted head, left to
// right, preserving argument order.
// ---------------------------------------------------------------------------
pub open spec fn value_to_term(v: ValueView) -> TermView
    decreases v,
{
    match v {
        ValueView::Universe(level) => TermView::Universe(level),
        ValueView::Literal(l) => TermView::Literal(l),
        ValueView::Pi(sc) => TermView::Pi(
            ScopeView {
                binder: sc.binder,
                ann: Box::new(value_to_term(*sc.ann)),
                body: Box::new(value_to_term(*sc.body)),
            },
        ),
        ValueView::Lam(sc) => TermView::Lam(
            ScopeView {
                binder: sc.binder,
                ann: Box::new(value_to_term(*sc.ann)),
                body: Box::new(value_to_term(*sc.body)),
            },
        ),
        ValueView::RecordType(fs) => TermView::RecordType(vfields_to_fields(fs)),
        ValueView::Record(fs) => TermView::Record(vfields_to_fields(fs)),
        ValueView::Array(es) => TermView::Array(values_to_terms(es)),
        ValueView::Neutral(n, spine) => spine_to_term(neutral_to_term(*n), spine),
    }
}

pub open spec fn neutral_to_term(n: NeutralView) -> TermView
    decreases n,
{
    match n {
        NeutralView::Head(h) => head_to_term(h),
        NeutralView::If(c, a, b) => TermView::If(
            Box::new(neutral_to_term(*c)),
            Box::new(value_to_term(*a)),
            Box::new(value_to_term(*b)),
        ),
        NeutralView::Proj(e, label) => TermView::Proj(Box::new(neutral_to_term(*e)), label),
        NeutralView::Case(e, cs) => TermView::Case(
            Box::new(neutral_to_term(*e)),
            vclauses_to_clauses(cs),
        ),
    }
}

pub open spec fn head_to_term(h: HeadView) -> TermView
    decreases h,
{
    match h {
        HeadView::Var(v, shift) => TermView::Var(v, shift),
        HeadView::Extern(name, ty) => TermView::Extern(name, Box::new(value_to_term(*ty))),
    }
}

/// Fold the arguments of a spine onto a re-quoted head, left to right.
pub open spec fn spine_to_term(base: TermView, args: Seq<ValueView>) -> TermView
    decreases args,
{
    if args.len() == 0 {
        base
    } else {
        spine_to_term(
            TermView::App(Box::new(base), Box::new(value_to_term(args.first()))),
            args.drop_first(),
        )
    }
}

pub open spec fn vfields_to_fields(fs: Seq<ValueFieldView>) -> Seq<FieldView>
    decreases fs,
{
    if fs.len() == 0 {
        Seq::empty()
    } else {
        vfields_to_fields(fs.drop_last()).push(
            FieldView {
                label: fs.last().label,
                binder: fs.last().binder,
                ann: value_to_term(fs.last().value),
            },
        )
    }
}

pub open spec fn vclauses_to_clauses(cs: Seq<ValueClauseView>) -> Seq<ClauseView>
    decreases cs,
{
    if cs.len() == 0 {
        Seq::empty()
    } else {
        vclauses_to_clauses(cs.drop_last()).push(
            ClauseView { pattern: cs.last().pattern, body: value_to_term(cs.last().body) },
        )
    }
}

pub open spec fn values_to_terms(es: Seq<ValueView>) -> Seq<TermView>
    decreases es,
{
    if es.len() == 0 {
        Seq::empty()
    } else {
        values_to_terms(es.drop_last()).push(value_to_term(es.last()))
    }
}

pub proof fn lemma_spine_to_term_push(base: TermView, args: Seq<ValueView>, x: ValueView)
    ensures
        spine_to_term(base, args.push(x)) == TermView::App(
            Box::new(spine_to_term(base, args)),
            Box::new(value_to_term(x)),
        ),
    decreases args,
{
    if args.len() == 0 {
        assert(args.push(x).drop_first() =~= Seq::<ValueView>::empty());
        assert(args.push(x)[0] == x);
        assert(spine_to_term(
            TermView::App(Box::new(base), Box::new(value_to_term(x))),
            Seq::<ValueView>::empty(),
        ) == TermView::App(Box::new(base), Box::new(value_to_term(x))));
        assert(spine_to_term(base, Seq::<ValueView>::empty()) == base);
    } else {
        assert(args.push(x)[0] == args[0]);
        assert(args.push(x).drop_first() =~= args.drop_first().push(x));
        lemma_spine_to_term_push(
            TermView::App(Box::new(base), Box::new(value_to_term(args[0]))),
            args.drop_first(),
            x,
        );
    }
}

pub proof fn lemma_vfields_to_fields(fs: Seq<ValueFieldView>)
    ensures
        vfields_to_fields(fs).len() == fs.len(),
        forall|i: int|
            0 <= i < fs.len() ==> vfields_to_fields(fs)[i] == (FieldView {
                label: (#[trigger] fs[i]).label,
                binder: fs[i].binder,
                ann: value_to_term(fs[i].value),
            }),
    decreases fs,
{
    if fs.len() > 0 {
        lemma_vfields_to_fields(fs.drop_last());
        assert forall|i: int| 0 <= i < fs.len() - 1 implies fs.drop_last()[i] == fs[i] by {}
        assert(fs.last() == fs[fs.len() - 1]);
    }
}

pub proof fn lemma_vclauses_to_clauses(cs: Seq<ValueClauseView>)
    ensures
        vclauses_to_clauses(cs).len() == cs.len(),
        forall|i: int|
            0 <= i < cs.len() ==> vclauses_to_clauses(cs)[i] == (ClauseView {
                pattern: (#[trigger] cs[i]).pattern,
                body: value_to_term(cs[i].body),
            }),
    decreases cs,
{
    if cs.len() > 0 {
        lemma_vclauses_to_clauses(cs.drop_last());
        assert forall|i: int| 0 <= i < cs.len() - 1 implies cs.drop_last()[i] == cs[i] by {}
        assert(cs.last() == cs[cs.len() - 1]);
    }
}

pub proof fn lemma_values_to_terms(es: Seq<ValueView>)
    ensures
        values_to_terms(es).len() == es.len(),
        forall|i: int|
            0 <= i < es.len() ==> values_to_terms(es)[i] == value_to_term(#[trigger] es[i]),
    decreases es,
{
    if es.len() > 0 {
        lemma_values_to_terms(es.drop_last());
        assert forall|i: int| 0 <= i < es.len() - 1 implies es.drop_last()[i] == es[i] by {}
        assert(es.last() == es[es.len() - 1]);
    }
}

impl Value {
    /// Re-quote this value into checkable term syntax. The map is total and
    /// structure-preserving; spines are rebuilt as left-nested applications.
    pub fn to_term(&self) -> (r: RcTerm)
        ensures
            r@ == value_to_term(self@),
        decreases *self,
    {
        match self {
            Value::Universe(level) => RcTerm::new(Term::Universe(*level)),
            Value::Literal(l) => RcTerm::new(Term::Literal(l.clone())),
            Value::Pi(sc) => {
                let sc2 = crate::term::Scope {
                    binder: sc.binder.clone(),
                    ann: rc_value_to_term(&sc.ann),
                    body: rc_value_to_term(&sc.body),
                };
                proof {
                    assert(crate::term::scope_view(sc2) == (ScopeView {
                        binder: sc.binder@,
                        ann: Box::new(value_to_term(value_view(*sc.ann.inner))),
                        body: Box::new(value_to_term(value_view(*sc.body.inner))),
                    }));
                }
                RcTerm::new(Term::Pi(sc2))
            },
            Value::Lam(sc) => {
                let sc2 = crate::term::Scope {
                    binder: sc.binder.clone(),
                    ann: rc_value_to_term(&sc.ann),
                    body: rc_value_to_term(&sc.body),
                };
                proof {
                    assert(crate::term::scope_view(sc2) == (ScopeView {
                        binder: sc.binder@,
                        ann: Box::new(value_to_term(value_view(*sc.ann.inner))),
                        body: Box::new(value_to_term(value_view(*sc.body.inner))),
                    }));
                }
                RcTerm::new(Term::Lam(sc2))
            },
            Value::RecordType(fs) => RcTerm::new(Term::RecordType(vfields_to_fields_exec(fs))),
            Value::Record(fs) => RcTerm::new(Term::Record(vfields_to_fields_exec(fs))),
            Value::Array(es) => RcTerm::new(Term::Array(values_to_terms_exec(es))),
            Value::Neutral(n, spine) => spine_to_term_exec(n.to_term(), spine),
        }
    }

    /// Substitute free variables in this value by first re-quoting it into a
    /// term and substituting there.
    pub fn substs(&self, mappings: &Vec<(FreeVar, RcTerm)>) -> (r: RcTerm)
        ensures
            r@ == crate::term::term_substs(
                value_to_term(self@),
                crate::term::subst_views(mappings@),
            ),
    {
        self.to_term().substs(mappings)
    }
}

impl Neutral {
    /// Re-quote this neutral into term syntax.
    pub fn to_term(&self) -> (r: RcTerm)
        ensures
            r@ == neutral_to_term(self@),
        decreases *self,
    {
        match self {
            Neutral::Head(h) => h.to_term(),
            Neutral::If(c, a, b) => RcTerm::new(
                Term::If(c.to_term(), rc_value_to_term(a), rc_value_to_term(b)),
            ),
            Neutral::Proj(e, label) => RcTerm::new(Term::Proj(e.to_term(), label.clone())),
            Neutral::Case(e, clauses) => RcTerm::new(
                Term::Case(e.to_term(), vclauses_to_clauses_exec(clauses)),
            ),
        }
    }
}

impl RcNeutral {
    /// Re-quote this neutral into term syntax.
    pub fn to_term(&self) -> (r: RcTerm)
        ensures
            r@ == neutral_to_term(self@),
        decreases *self,
    {
        (*self.inner).to_term()
    }
}

impl Head {
    /// Re-quote this head into term syntax.
    pub fn to_term(&self) -> (r: RcTerm)
        ensures
            r@ == head_to_term(self@),
        decreases *self,
    {
        match self {
            Head::Var(v, shift) => RcTerm::new(Term::Var(v.clone(), *shift)),
            Head::Extern(name, ty) => RcTerm::new(
                Term::Extern(name.clone(), rc_value_to_term(ty)),
            ),
        }
    }
}

fn rc_value_to_term(v: &RcValue) -> (r: RcTerm)
    ensures
        r@ == value_to_term(v@),
    decreases *v,
{
    (*v.inner).to_term()
}

#[verifier::loop_isolation(false)]
fn spine_to_term_exec(base: RcTerm, spine: &Spine) -> (r: RcTerm)
    ensures
        r@ == spine_to_term(base@, value_views(spine@)),
    decreases spine@,
{
    proof {
        lemma_value_views(spine@);
    }
    let ghost vs = value_views(spine@);
    let mut acc = base;
    let mut i: usize = 0;
    while i < spine.len()
        invariant
            i <= spine@.len(),
            acc@ == spine_to_term(base@, vs.take(i as int)),
        decreases spine@.len() - i,
    {
        proof {
            assert(decreases_to!(spine@ => spine@[i as int]));
            assert(vs[i as int] == value_view(*spine@[i as int].inner));
        }
        let arg = rc_value_to_term(&spine[i]);
        acc = RcTerm::new(Term::App(acc, arg));
        i = i + 1;
        proof {
            assert(vs.take(i as int).drop_last() =~= vs.take(i - 1));
            assert(vs.take(i as int) =~= vs.take(i - 1).push(vs[i - 1]));
            lemma_spine_to_term_push(base@, vs.take(i - 1), vs[i - 1]);
        }
    }
    proof {
        assert(vs.take(i as int) =~= vs);
    }
    acc
}

#[verifier::loop_isolation(false)]
fn vfields_to_fields_exec(fs: &Vec<ValueField>) -> (r: Vec<crate::term::Field>)
    ensures
        crate::term::field_views(r@) == vfields_to_fields(vfield_views(fs@)),
    decreases fs@,
{
    proof {
        lemma_vfield_views(fs@);
    }
    let mut out: Vec<crate::term::Field> = Vec::new();
    let mut i: usize = 0;
    while i < fs.len()
        invariant
            i <= fs@.len(),
            out@.len() == i,
            forall|j: int|
                0 <= j < i ==> (#[trigger] out@[j]).label@ == fs@[j].label@ && out@[j].binder@
                    == fs@[j].binder@ && crate::term::term_view(*out@[j].ann.inner)
                    == value_to_term(value_view(*fs@[j].value.inner)),
        decreases fs@.len() - i,
    {
        proof {
            assert(decreases_to!(fs@ => fs@[i as int]));
            assert(vfield_views(fs@)[i as int] == (ValueFieldView {
                label: fs@[i as int].label@,
                binder: fs@[i as int].binder@,
                value: value_view(*fs@[i as int].value.inner),
            }));
        }
        let f = &fs[i];
        let newf = crate::term::Field {
            label: f.label.clone(),
            binder: f.binder.clone(),
            ann: rc_value_to_term(&f.value),
        };
        out.push(newf);
        i = i + 1;
    }
    proof {
        crate::term::lemma_field_views(out@);
        lemma_vfields_to_fields(vfield_views(fs@));
        assert forall|k: int|
            0 <= k < out@.len() implies crate::term::field_views(out@)[k] == vfields_to_fields(
            vfield_views(fs@),
        )[k] by {
            assert(crate::term::field_views(out@)[k] == (FieldView {
                label: out@[k].label@,
                binder: out@[k].binder@,
                ann: crate::term::term_view(*out@[k].ann.inner),
            }));
            assert(vfield_views(fs@)[k] == (ValueFieldView {
                label: fs@[k].label@,
                binder: fs@[k].binder@,
                value: value_view(*fs@[k].value.inner),
            }));
        }
        assert(crate::term::field_views(out@) =~= vfields_to_fields(vfield_views(fs@)));
    }
    out
}

#[verifier::loop_isolation(false)]
fn vclauses_to_clauses_exec(cs: &Vec<ValueClause>) -> (r: Vec<crate::term::Clause>)
    ensures
        crate::term::clause_views(r@) == vclauses_to_clauses(vclause_views(cs@)),
    decreases cs@,
{
    proof {
        lemma_vclause_views(cs@);
    }
    let mut out: Vec<crate::term::Clause> = Vec::new();
    let mut i: usize = 0;
    while i < cs.len()
        invariant
            i <= cs@.len(),
            out@.len() == i,
            forall|j: int|
                0 <= j < i ==> crate::term::pattern_view(*(#[trigger] out@[j]).pattern.inner)
                    == crate::term::pattern_view(*cs@[j].pattern.inner) && crate::term::term_view(
                    *out@[j].body.inner,
                ) == value_to_term(value_view(*cs@[j].body.inner)),
        decreases cs@.len() - i,
    {
        proof {
            assert(decreases_to!(cs@ => cs@[i as int]));
            assert(vclause_views(cs@)[i as int] == (ValueClauseView {
                pattern: crate::term::pattern_view(*cs@[i as int].pattern.inner),
                body: value_view(*cs@[i as int].body.inner),
            }));
        }
        let c = &cs[i];
        let newc = crate::term::Clause {
            pattern: c.pattern.clone(),
            body: rc_value_to_term(&c.body),
        };
        out.push(newc);
        i = i + 1;
    }
    proof {
        crate::term::lemma_clause_views(out@);
        lemma_vclauses_to_clauses(vclause_views(cs@));
        assert forall|k: int|
            0 <= k < out@.len() implies crate::term::clause_views(out@)[k] == vclauses_to_clauses(
            vclause_views(cs@),
        )[k] by {
            assert(crate::term::clause_views(out@)[k] == (ClauseView {
                pattern: crate::term::pattern_view(*out@[k].pattern.inner),
                body: crate::term::term_view(*out@[k].body.inner),
            }));
            assert(vclause_views(cs@)[k] == (ValueClauseView {
                pattern: crate::term::pattern_view(*cs@[k].pattern.inner),
                body: value_view(*cs@[k].body.inner),
            }));
        }
        assert(crate::term::clause_views(out@) =~= vclauses_to_clauses(vclause_views(cs@)));
    }
    out
}

#[verifier::loop_isolation(false)]
fn values_to_terms_exec(es: &Vec<RcValue>) -> (r: Vec<RcTerm>)
    ensures
        crate::term::term_views(r@) == values_to_terms(value_views(es@)),
    decreases es@,
{
    proof {
        lemma_value_views(es@);
    }
    let mut out: Vec<RcTerm> = Vec::new();
    let mut i: usize = 0;
    while i < es.len()
        invariant
            i <= es@.len(),
            out@.len() == i,
            forall|j: int|
                0 <= j < i ==> crate::term::term_view(*(#[trigger] out@[j]).inner) == value_to_term(
                    value_view(*es@[j].inner),
                ),
        decreases es@.len() - i,
    {
        proof {
            assert(decreases_to!(es@ => es@[i as int]));
            assert(value_views(es@)[i as int] == value_view(*es@[i as int].inner));
        }
        let e = rc_value_to_term(&es[i]);
        out.push(e);
        i = i + 1;
    }
    proof {
        crate::term::lemma_term_views(out@);
        lemma_values_to_terms(value_views(es@));
        assert forall|k: int|
            0 <= k < out@.len() implies crate::term::term_views(out@)[k] == values_to_terms(
            value_views(es@),
        )[k] by {
            assert(crate::term::term_views(out@)[k] == crate::term::term_view(*out@[k].inner));
            assert(value_views(es@)[k] == value_view(*es@[k].inner));
        }
        assert(crate::term::term_views(out@) =~= values_to_terms(value_views(es@)));
    }
    out
}

} // verus!
