use pikelet_core::term::{Literal, Pattern, RcPattern, RcTerm, Term};
use pikelet_core::universe::{Label, Level, LevelShift};
use pikelet_core::value::{
    Head, Neutral, RcNeutral, RcValue, Value, ValueClause, ValueField, ValueScope,
};
use pikelet_core::var::{Binder, FreeVar, Var};

fn fv(name: &str, id: u64) -> FreeVar {
    FreeVar { name: name.to_string(), id }
}

fn rcv(v: Value) -> RcValue {
    RcValue::new(v)
}

fn universe_value(level: u32) -> RcValue {
    rcv(Value::Universe(Level(level)))
}

fn neutral_free(name: &str, id: u64, spine: Vec<RcValue>) -> RcValue {
    rcv(Value::Neutral(
        RcNeutral::new(Neutral::var(Var::Free(fv(name, id)), LevelShift(0))),
        spine,
    ))
}

fn free_term(name: &str, id: u64) -> RcTerm {
    RcTerm::new(Term::Var(Var::Free(fv(name, id)), LevelShift(0)))
}

#[test]
fn universe_shifted_by_two_is_five() {
    // `Universe(Level(3))` shifted by `LevelShift(2)` yields
    // `Universe(Level(5))`.
    let mut v = universe_value(3);
    v.shift_universes(LevelShift(2));
    assert_eq!(*v.inner, Value::Universe(Level(5)));
}

#[test]
fn shifting_is_additive_on_an_example() {
    let pi = ValueScope {
        binder: Binder(fv("x", 0)),
        ann: universe_value(1),
        body: universe_value(2),
    };
    let mut once = rcv(Value::Pi(ValueScope {
        binder: pi.binder.clone(),
        ann: pi.ann.clone(),
        body: pi.body.clone(),
    }));
    let mut twice = once.clone();
    once.shift_universes(LevelShift(5));
    twice.shift_universes(LevelShift(2));
    twice.shift_universes(LevelShift(3));
    assert_eq!(once, twice);
}

#[test]
fn shifting_by_zero_changes_nothing() {
    let mut v = neutral_free("f", 0, vec![universe_value(4)]);
    let before = v.clone();
    v.shift_universes(LevelShift(0));
    assert_eq!(v, before);
}

#[test]
fn shift_leaves_variable_head_shift_untouched() {
    // The shift recorded on a stuck variable head is deliberately not
    // changed; the spine's universes are.
    let head = RcNeutral::new(Neutral::var(Var::Free(fv("f", 0)), LevelShift(1)));
    let mut v = rcv(Value::Neutral(head, vec![universe_value(3)]));
    v.shift_universes(LevelShift(2));
    if let Value::Neutral(ref n, ref spine) = *v.inner {
        assert_eq!(
            *n.inner,
            Neutral::Head(Head::Var(Var::Free(fv("f", 0)), LevelShift(1)))
        );
        assert_eq!(spine[0], universe_value(5));
    } else {
        panic!("expected a neutral value");
    }
}

#[test]
fn shift_reaches_extern_type_annotations() {
    let head = RcNeutral::new(Neutral::Head(Head::Extern(
        "prim".to_string(),
        universe_value(1),
    )));
    let mut n = head;
    n.shift_universes(LevelShift(4));
    assert_eq!(
        *n.inner,
        Neutral::Head(Head::Extern("prim".to_string(), universe_value(5)))
    );
}

#[test]
fn shift_skips_case_patterns_but_shifts_bodies() {
    let pattern = RcPattern::new(Pattern::Binder(Binder(fv("x", 0))));
    let clause = ValueClause {
        pattern: pattern.clone(),
        body: universe_value(1),
    };
    let scrutinee = RcNeutral::new(Neutral::var(Var::Free(fv("s", 1)), LevelShift(0)));
    let mut n = RcNeutral::new(Neutral::Case(scrutinee, vec![clause]));
    n.shift_universes(LevelShift(2));
    if let Neutral::Case(_, ref clauses) = *n.inner {
        assert_eq!(clauses[0].pattern, pattern);
        assert_eq!(clauses[0].body, universe_value(3));
    } else {
        panic!("expected a pending case");
    }
}

#[test]
fn nf_implies_whnf_and_not_conversely() {
    // A pi type whose body is a neutral application is in weak head normal
    // form but not in normal form.
    let neutral_body = neutral_free("f", 0, vec![universe_value(0)]);
    let pi = Value::Pi(ValueScope {
        binder: Binder(fv("x", 1)),
        ann: universe_value(0),
        body: neutral_body,
    });
    assert!(pi.is_whnf());
    assert!(!pi.is_nf());

    let canonical = Value::Universe(Level(0));
    assert!(canonical.is_nf());
    assert!(canonical.is_whnf());
}

#[test]
fn is_nf_looks_into_records_and_arrays() {
    let neutral = neutral_free("f", 0, Vec::new());
    let record = Value::Record(vec![ValueField {
        label: Label("l".to_string()),
        binder: Binder(fv("x", 1)),
        value: neutral.clone(),
    }]);
    assert!(record.is_whnf());
    assert!(!record.is_nf());

    let array_nf = Value::Array(vec![universe_value(0), universe_value(1)]);
    assert!(array_nf.is_nf());
    let array_stuck = Value::Array(vec![universe_value(0), neutral]);
    assert!(!array_stuck.is_nf());

    let neutral_value = Value::Neutral(
        RcNeutral::new(Neutral::var(Var::Free(fv("g", 2)), LevelShift(0))),
        Vec::new(),
    );
    assert!(!neutral_value.is_whnf());
    assert!(!neutral_value.is_nf());
}

#[test]
fn head_app_returns_head_and_spine_for_bare_applications() {
    // `head_app` on `Neutral(Head(Var(Free "f")), [v1, v2])` returns the
    // head and the spine.
    let v1 = universe_value(1);
    let v2 = universe_value(2);
    let v = Value::Neutral(
        RcNeutral::new(Neutral::var(Var::Free(fv("f", 0)), LevelShift(0))),
        vec![v1.clone(), v2.clone()],
    );
    let (head, spine) = v.head_app().expect("a bare neutral application");
    assert_eq!(*head, Head::Var(Var::Free(fv("f", 0)), LevelShift(0)));
    assert_eq!(spine.len(), 2);
    assert_eq!(spine[0], v1);
    assert_eq!(spine[1], v2);
}

#[test]
fn head_app_returns_nothing_for_wrapped_neutrals() {
    // `head_app` on `Neutral(If(cond, a, b), [])` returns nothing.
    let cond = RcNeutral::new(Neutral::var(Var::Free(fv("c", 0)), LevelShift(0)));
    let wrapped = Value::Neutral(
        RcNeutral::new(Neutral::If(cond, universe_value(0), universe_value(1))),
        Vec::new(),
    );
    assert!(wrapped.head_app().is_none());
    assert!(Value::Universe(Level(0)).head_app().is_none());
}

#[test]
fn free_var_app_distinguishes_free_heads() {
    let v = Value::Neutral(
        RcNeutral::new(Neutral::var(Var::Free(fv("f", 3)), LevelShift(1))),
        vec![universe_value(0)],
    );
    let (free_var, shift, spine) = v.free_var_app().expect("stuck on a free variable");
    assert_eq!(free_var.id, 3);
    assert_eq!(shift, LevelShift(1));
    assert_eq!(spine.len(), 1);

    let stuck_on_extern = Value::Neutral(
        RcNeutral::new(Neutral::Head(Head::Extern(
            "prim".to_string(),
            universe_value(0),
        ))),
        Vec::new(),
    );
    assert!(stuck_on_extern.free_var_app().is_none());
    assert!(stuck_on_extern.head_app().is_some());
}

#[test]
fn to_term_folds_the_spine_left_to_right() {
    let v = Value::Neutral(
        RcNeutral::new(Neutral::var(Var::Free(fv("f", 0)), LevelShift(0))),
        vec![universe_value(1), universe_value(2)],
    );
    let t = v.to_term();
    let expected = RcTerm::new(Term::App(
        RcTerm::new(Term::App(
            free_term("f", 0),
            RcTerm::new(Term::universe(Level(1))),
        )),
        RcTerm::new(Term::universe(Level(2))),
    ));
    assert_eq!(t, expected);
}

#[test]
fn to_term_preserves_canonical_structure() {
    let v = Value::Lam(ValueScope {
        binder: Binder(fv("x", 0)),
        ann: universe_value(0),
        body: rcv(Value::Literal(Literal::Bool(true))),
    });
    let t = v.to_term();
    if let Term::Lam(ref s) = *t.inner {
        assert_eq!(s.ann, RcTerm::new(Term::universe(Level(0))));
        assert_eq!(s.body, RcTerm::new(Term::Literal(Literal::Bool(true))));
    } else {
        panic!("expected a lambda term");
    }
}

#[test]
fn value_substs_goes_through_the_embedding() {
    let v = Value::Neutral(
        RcNeutral::new(Neutral::var(Var::Free(fv("x", 0)), LevelShift(0))),
        Vec::new(),
    );
    let mappings = vec![(fv("x", 0), RcTerm::new(Term::universe(Level(9))))];
    let t = v.substs(&mappings);
    assert_eq!(t, RcTerm::new(Term::universe(Level(9))));
}

#[test]
fn value_alpha_eq_ignores_binder_names_and_compares_spines() {
    let scope = |binder: &str, id: u64| ValueScope {
        binder: Binder(fv(binder, id)),
        ann: universe_value(0),
        body: neutral_free("x", 5, Vec::new()),
    };
    let pi_a = Value::Pi(scope("a", 0));
    let pi_b = Value::Pi(scope("b", 1));
    assert!(pi_a.alpha_eq(&pi_b));
    let lam = Value::Lam(scope("a", 0));
    assert!(!pi_a.alpha_eq(&lam));

    let n1 = neutral_free("f", 0, vec![universe_value(1)]);
    let n2 = neutral_free("renamed", 0, vec![universe_value(1)]);
    let n3 = neutral_free("f", 0, vec![universe_value(2)]);
    assert!(n1.alpha_eq(&n2));
    assert!(!n1.alpha_eq(&n3));
}

#[test]
fn value_constructors_build_the_expected_shapes() {
    let u = Value::universe(Level(2));
    assert_eq!(u, Value::Universe(Level(2)));
    let v = Value::var(Var::Free(fv("x", 1)), LevelShift(0));
    let (head, spine) = v.head_app().expect("a bare variable is a neutral application");
    assert_eq!(*head, Head::Var(Var::Free(fv("x", 1)), LevelShift(0)));
    assert!(spine.is_empty());
    let n = Neutral::var(Var::Free(fv("y", 2)), LevelShift(3));
    assert_eq!(n, Neutral::Head(Head::Var(Var::Free(fv("y", 2)), LevelShift(3))));
}
