use pikelet_core::binding::bind_nest;
use pikelet_core::binding::unbind_nest;
use pikelet_core::term::{Clause, Field, Literal, Pattern, RcPattern, RcTerm, Scope, Term};
use pikelet_core::universe::{Label, Level, LevelShift};
use pikelet_core::var::{Binder, Debruijn, FreeVar, FreshGen, Named, Var};

fn fv(name: &str, id: u64) -> FreeVar {
    FreeVar { name: name.to_string(), id }
}

fn free_term(name: &str, id: u64) -> RcTerm {
    RcTerm::new(Term::Var(Var::Free(fv(name, id)), LevelShift(0)))
}

fn bound_term(name: &str, scope: u32, binder: u32) -> RcTerm {
    RcTerm::new(Term::Var(
        Var::Bound(Named {
            name: name.to_string(),
            index: Debruijn { scope, binder },
        }),
        LevelShift(0),
    ))
}

fn app(f: RcTerm, a: RcTerm) -> RcTerm {
    RcTerm::new(Term::App(f, a))
}

fn universe(level: u32) -> RcTerm {
    RcTerm::new(Term::universe(Level(level)))
}

#[test]
fn fresh_gen_allocates_increasing_ids() {
    let mut gen = FreshGen::new();
    let a = gen.fresh("a".to_string());
    let b = gen.fresh("b".to_string());
    let c = gen.fresh("a".to_string());
    assert_eq!(a.id, 0);
    assert_eq!(b.id, 1);
    assert_eq!(c.id, 2);
    assert_eq!(a.name, "a");
    assert_eq!(b.name, "b");
    assert!(a.alpha_eq(&a));
    assert!(!a.alpha_eq(&c));
}

#[test]
fn var_close_at_is_idempotent() {
    let x = fv("x", 7);
    let index = Debruijn { scope: 0, binder: 0 };
    let mut v = Var::Free(x.clone());
    v.close_at(index, &x);
    let closed = v.clone();
    assert!(matches!(v, Var::Bound(_)));
    // A second close is a no-op because the variant is no longer `Free`.
    v.close_at(index, &x);
    assert_eq!(v, closed);
}

#[test]
fn var_open_at_inverts_close_at() {
    let x = fv("x", 7);
    let y = fv("y", 9);
    let index = Debruijn { scope: 0, binder: 0 };
    let mut v = Var::Free(x.clone());
    v.close_at(index, &x);
    v.open_at(index, &y);
    assert_eq!(v, Var::Free(y.clone()));
    // Opening at a different index is a no-op.
    let mut w = Var::Free(x.clone());
    w.close_at(index, &x);
    w.open_at(Debruijn { scope: 1, binder: 0 }, &y);
    assert!(matches!(w, Var::Bound(_)));
}

#[test]
fn bind_single_name_over_self_application() {
    // Binding `x` over `App(Var(Free x), Var(Free x))` stores
    // `App(Var(Bound x@0), Var(Bound x@0))`.
    let x = fv("x", 0);
    let body = app(free_term("x", 0), free_term("x", 0));
    let scope = Scope::bind(Binder(x), universe(0), body);
    let expected = app(bound_term("x", 0, 0), bound_term("x", 0, 0));
    assert_eq!(scope.body, expected);
}

#[test]
fn unbind_yields_fresh_name_and_opened_body() {
    let x = fv("x", 0);
    let body = app(free_term("x", 0), free_term("x", 0));
    let scope = Scope::bind(Binder(x), universe(0), body);
    let mut gen = FreshGen { next_id: 10 };
    let (binder, _ann, opened) = scope.unbind(&mut gen);
    // The fresh name is distinct from every live name and keeps the display
    // name of the stored binder.
    assert_eq!(binder.0.id, 10);
    assert_eq!(binder.0.name, "x");
    let expected = app(free_term("x", 10), free_term("x", 10));
    assert_eq!(opened, expected);
}

#[test]
fn unbind_bind_reproduces_alpha_equivalent_scope() {
    let x = fv("x", 0);
    let body = app(free_term("x", 0), universe(2));
    let scope = Scope::bind(Binder(x), universe(3), body);
    let mut gen = FreshGen { next_id: 50 };
    let (binder, ann, opened) = scope.unbind(&mut gen);
    let rebound = Scope::bind(binder, ann, opened);
    assert!(rebound.body.alpha_eq(&scope.body));
    assert!(rebound.ann.alpha_eq(&scope.ann));
}

#[test]
fn nested_scopes_use_outer_indices() {
    // λx. λy. x y: the inner scope sees x at scope offset 1.
    let x = fv("x", 0);
    let y = fv("y", 1);
    let inner_body = app(free_term("x", 0), free_term("y", 1));
    let inner = Scope::bind(Binder(y), universe(0), inner_body);
    let outer_body = RcTerm::new(Term::Lam(inner));
    let outer = Scope::bind(Binder(x), universe(0), outer_body);
    if let Term::Lam(ref s) = *outer.body.inner {
        let expected = app(bound_term("x", 1, 0), bound_term("y", 0, 0));
        assert_eq!(s.body, expected);
    } else {
        panic!("expected a lambda under the outer scope");
    }
}

#[test]
fn substs_replaces_exactly_the_mapped_free_occurrences() {
    let x = fv("x", 0);
    let t = app(
        app(free_term("x", 0), free_term("y", 1)),
        bound_term("z", 0, 0),
    );
    let mappings = vec![(x, universe(4))];
    let r = t.substs(&mappings);
    let expected = app(
        app(universe(4), free_term("y", 1)),
        bound_term("z", 0, 0),
    );
    assert_eq!(r, expected);
}

#[test]
fn substs_takes_the_first_matching_entry() {
    let t = free_term("x", 0);
    let mappings = vec![(fv("x", 0), universe(1)), (fv("x", 0), universe(2))];
    assert_eq!(t.substs(&mappings), universe(1));
}

#[test]
fn substs_leaves_case_patterns_unchanged() {
    let x = fv("x", 0);
    let pattern = RcPattern::new(Pattern::Var(Var::Free(fv("x", 0)), LevelShift(0)));
    let clause = Clause {
        pattern: pattern.clone(),
        body: free_term("x", 0),
    };
    let t = RcTerm::new(Term::Case(free_term("x", 0), vec![clause]));
    let mappings = vec![(x, universe(7))];
    let r = t.substs(&mappings);
    if let Term::Case(ref scrutinee, ref clauses) = *r.inner {
        assert_eq!(*scrutinee, universe(7));
        assert_eq!(clauses.len(), 1);
        // The pattern is kept as it was; only the body is substituted.
        assert_eq!(clauses[0].pattern, pattern);
        assert_eq!(clauses[0].body, universe(7));
    } else {
        panic!("expected a case expression");
    }
}

#[test]
fn substs_returns_empty_record_unchanged() {
    let t = RcTerm::new(Term::Record(Vec::new()));
    let mappings = vec![(fv("x", 0), universe(1))];
    assert_eq!(t.substs(&mappings), t);
}

#[test]
fn alpha_eq_ignores_bound_display_names() {
    let body_a = app(free_term("a", 0), universe(1));
    let body_b = app(free_term("b", 0), universe(1));
    let scope_a = Scope::bind(Binder(fv("a", 0)), universe(0), body_a);
    let scope_b = Scope::bind(Binder(fv("b", 0)), universe(0), body_b);
    let lam_a = RcTerm::new(Term::Lam(scope_a));
    let lam_b = RcTerm::new(Term::Lam(scope_b));
    assert!(lam_a.alpha_eq(&lam_b));
}

#[test]
fn alpha_eq_compares_free_variables_by_id() {
    let a = free_term("x", 0);
    let b = free_term("renamed", 0);
    let c = free_term("x", 1);
    assert!(a.alpha_eq(&b));
    assert!(!a.alpha_eq(&c));
}

#[test]
fn alpha_eq_is_an_equivalence_on_examples() {
    let t1 = app(free_term("x", 0), universe(1));
    let t2 = app(free_term("y", 0), universe(1));
    let t3 = app(free_term("z", 0), universe(1));
    // Reflexive, symmetric, transitive.
    assert!(t1.alpha_eq(&t1));
    assert!(t1.alpha_eq(&t2) && t2.alpha_eq(&t1));
    assert!(t1.alpha_eq(&t2) && t2.alpha_eq(&t3) && t1.alpha_eq(&t3));
}

#[test]
fn alpha_eq_record_labels_are_significant() {
    let field = |label: &str| Field {
        label: Label(label.to_string()),
        binder: Binder(fv("x", 0)),
        ann: universe(0),
    };
    let r1 = RcTerm::new(Term::RecordType(vec![field("l")]));
    let r2 = RcTerm::new(Term::RecordType(vec![field("m")]));
    let r3 = RcTerm::new(Term::RecordType(vec![field("l")]));
    assert!(!r1.alpha_eq(&r2));
    assert!(r1.alpha_eq(&r3));
}

#[test]
fn alpha_eq_literals_compare_by_value_and_float_bits() {
    let s1 = Literal::String("hi".to_string());
    let s2 = Literal::String("hi".to_string());
    let s3 = Literal::String("ho".to_string());
    assert!(s1.alpha_eq(&s2));
    assert!(!s1.alpha_eq(&s3));
    let f1 = Literal::F64(2.5f64.to_bits());
    let f2 = Literal::F64(2.5f64.to_bits());
    let f3 = Literal::F64(3.5f64.to_bits());
    assert!(f1.alpha_eq(&f2));
    assert!(!f1.alpha_eq(&f3));
    assert!(!Literal::U8(1).alpha_eq(&Literal::U16(1)));
}

#[test]
fn bind_nest_closes_annotations_against_earlier_binders() {
    // { a : Type, b : a }: the second annotation refers to the first binder.
    let entries = vec![
        Field {
            label: Label("a".to_string()),
            binder: Binder(fv("a", 0)),
            ann: universe(0),
        },
        Field {
            label: Label("b".to_string()),
            binder: Binder(fv("b", 1)),
            ann: free_term("a", 0),
        },
    ];
    let fields = bind_nest(entries);
    assert_eq!(fields[0].ann, universe(0));
    assert_eq!(fields[1].ann, bound_term("a", 0, 0));

    let mut gen = FreshGen { next_id: 20 };
    let opened = unbind_nest(&fields, &mut gen);
    assert_eq!(opened[0].binder.0.id, 20);
    assert_eq!(opened[1].binder.0.id, 21);
    assert_eq!(opened[1].ann, free_term("a", 20));
}

#[test]
fn clause_bind_and_unbind_rename_pattern_binders() {
    let pattern = RcPattern::new(Pattern::Binder(Binder(fv("x", 0))));
    let clause = Clause::bind(pattern, free_term("x", 0));
    assert_eq!(clause.body, bound_term("x", 0, 0));

    let mut gen = FreshGen { next_id: 30 };
    let (renamed, body) = clause.unbind(&mut gen);
    if let Pattern::Binder(ref b) = *renamed.inner {
        assert_eq!(b.0.id, 30);
        assert_eq!(b.0.name, "x");
    } else {
        panic!("expected a binder pattern");
    }
    assert_eq!(body, free_term("x", 30));
}

#[test]
fn term_constructors_build_the_expected_variants() {
    let u = Term::universe(Level(3));
    assert!(matches!(u, Term::Universe(Level(3))));
    let v = Term::var(Var::Free(fv("x", 4)), LevelShift(2));
    if let Term::Var(Var::Free(ref n), shift) = v {
        assert_eq!(n.id, 4);
        assert_eq!(shift, LevelShift(2));
    } else {
        panic!("expected a free variable");
    }
}

#[test]
fn level_succ_and_shift_arithmetic() {
    assert_eq!(Level(0).succ(), Level(1));
    assert_eq!(Level(3).shifted(LevelShift(2)), Level(5));
    assert_eq!(Level(u32::MAX - 2).shifted(LevelShift(2)), Level(u32::MAX));
    assert_eq!(LevelShift(2).plus(LevelShift(3)), LevelShift(5));
    let l = Label("field".to_string());
    assert!(l.alpha_eq(&Label("field".to_string())));
    assert!(!l.alpha_eq(&Label("other".to_string())));
}
