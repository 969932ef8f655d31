//! The variable model: free names, de Bruijn indices, and the `Var` sum type,
//! with the open/close primitives of the locally nameless representation.

use vstd::prelude::*;

verus! {

/// A free variable: a surface name together with a globally unique
/// disambiguator. Only `id` takes part in equality; `name` is kept for
/// display alone.
#[derive(Debug, PartialEq, Eq)]
pub struct FreeVar {
    pub name: String,
    pub id: u64,
}

/// The mathematical value of a `FreeVar`.
pub struct FreeVarView {
    pub name: Seq<char>,
    pub id: u64,
}

impl View for FreeVar {
    type V = FreeVarView;

    open spec fn view(&self) -> FreeVarView {
        FreeVarView { name: self.name@, id: self.id }
    }
}

impl Clone for FreeVar {
    fn clone(&self) -> (r: Self)
        ensures
            r == *self,
    {
        FreeVar { name: self.name.clone(), id: self.id }
    }
}

impl FreeVar {
    /// Free variables are identified by their unique `id` alone.
    pub fn alpha_eq(&self, other: &FreeVar) -> (r: bool)
        ensures
            r == (self@.id == other@.id),
    {
        self.id == other.id
    }
}

/// A name introduced by a binding position in a pattern.
#[derive(Debug, PartialEq, Eq)]
pub struct Binder(pub FreeVar);

impl View for Binder {
    type V = FreeVarView;

    open spec fn view(&self) -> FreeVarView {
        self.0@
    }
}

impl Clone for Binder {
    fn clone(&self) -> (r: Self)
        ensures
            r == *self,
    {
        Binder(self.0.clone())
    }
}

/// A de Bruijn index: `scope` counts enclosing binding levels outward from
/// the variable's position, and `binder` selects a position within the
/// pattern of that level (patterns may declare several names).
#[derive(Debug, Clone, Copy, PartialEq, Eq, Structural)]
pub struct Debruijn {
    pub scope: u32,
    pub binder: u32,
}

/// A bound variable: the de Bruijn index that addresses its binder, plus the
/// original surface name, kept for display alone.
#[derive(Debug, PartialEq, Eq)]
pub struct Named {
    pub name: String,
    pub index: Debruijn,
}

/// The mathematical value of a `Named`.
pub struct NamedView {
    pub name: Seq<char>,
    pub index: Debruijn,
}

impl View for Named {
    type V = NamedView;

    open spec fn view(&self) -> NamedView {
        NamedView { name: self.name@, index: self.index }
    }
}

impl Clone for Named {
    fn clone(&self) -> (r: Self)
        ensures
            r == *self,
    {
        Named { name: self.name.clone(), index: self.index }
    }
}

/// A variable occurrence: either free, or bound by an enclosing binder.
#[derive(Debug, PartialEq, Eq)]
pub enum Var {
    /// A variable not bound by any enclosing binder in the current subtree.
    Free(FreeVar),
    /// A variable addressed positionally by a de Bruijn index.
    Bound(Named),
}

/// The mathematical value of a `Var`.
pub enum VarView {
    Free(FreeVarView),
    Bound(NamedView),
}

impl View for Var {
    type V = VarView;

    open spec fn view(&self) -> VarView {
        match self {
            Var::Free(n) => VarView::Free(n@),
            Var::Bound(n) => VarView::Bound(n@),
        }
    }
}

impl Clone for Var {
    fn clone(&self) -> (r: Self)
        ensures
            r == *self,
    {
        match self {
            Var::Free(n) => Var::Free(n.clone()),
            Var::Bound(n) => Var::Bound(n.clone()),
        }
    }
}

/// Alpha-equivalence on variables: bound variables are equal exactly when
/// their indices are equal, free variables exactly when their ids are equal;
/// display names never matter.
pub open spec fn var_alpha_eq(a: VarView, b: VarView) -> bool {
    match (a, b) {
        (VarView::Free(x), VarView::Free(y)) => x.id == y.id,
        (VarView::Bound(x), VarView::Bound(y)) => x.index == y.index,
        _ => false,
    }
}

/// `close_at`: a `Free` occurrence of `name` becomes `Bound` at `index`;
/// anything else is left unchanged.
pub open spec fn var_close_at(v: VarView, index: Debruijn, name: FreeVarView) -> VarView {
    match v {
        VarView::Free(n) => if n.id == name.id {
            VarView::Bound(NamedView { name: n.name, index })
        } else {
            v
        },
        VarView::Bound(_) => v,
    }
}

/// `open_at`: a `Bound` occurrence at exactly `index` becomes `Free(name)`;
/// anything else is left unchanged.
pub open spec fn var_open_at(v: VarView, index: Debruijn, name: FreeVarView) -> VarView {
    match v {
        VarView::Bound(n) => if n.index == index {
            VarView::Free(name)
        } else {
            v
        },
        VarView::Free(_) => v,
    }
}

/// The position of the first binder in `binders` whose id is `id`, or -1 if
/// no binder has that id.
pub open spec fn find_binder(binders: Seq<FreeVarView>, id: u64) -> int
    decreases binders,
{
    if binders.len() == 0 {
        -1
    } else if binders[0].id == id {
        0
    } else {
        let r = find_binder(binders.drop_first(), id);
        if r >= 0 {
            r + 1
        } else {
            -1
        }
    }
}

pub proof fn lemma_find_binder(binders: Seq<FreeVarView>, id: u64)
    ensures
        find_binder(binders, id) >= 0 ==> {
            let k = find_binder(binders, id);
            &&& 0 <= k < binders.len()
            &&& binders[k].id == id
            &&& forall|j: int| 0 <= j < k ==> binders[j].id != id
        },
        find_binder(binders, id) < 0 ==> forall|j: int|
            0 <= j < binders.len() ==> binders[j].id != id,
    decreases binders,
{
    if binders.len() > 0 && binders[0].id != id {
        lemma_find_binder(binders.drop_first(), id);
        assert forall|j: int| 1 <= j < binders.len() implies binders.drop_first()[j - 1]
            == binders[j] by {}
    }
}

/// Closing a variable against a whole pattern of binders at scope depth
/// `depth`: a free occurrence of the k-th binder's name becomes bound at
/// position k of that level.
pub open spec fn var_close_multi(v: VarView, depth: u32, binders: Seq<FreeVarView>) -> VarView {
    match v {
        VarView::Free(n) => {
            let k = find_binder(binders, n.id);
            if k >= 0 {
                VarView::Bound(
                    NamedView { name: n.name, index: Debruijn { scope: depth, binder: k as u32 } },
                )
            } else {
                v
            }
        },
        VarView::Bound(_) => v,
    }
}

/// Opening a variable against a whole pattern of fresh names: a bound
/// occurrence at level `depth`, position k, becomes free with the k-th name.
pub open spec fn var_open_multi(v: VarView, depth: u32, names: Seq<FreeVarView>) -> VarView {
    match v {
        VarView::Bound(n) => if n.index.scope == depth && (n.index.binder as int) < names.len() {
            VarView::Free(names[n.index.binder as int])
        } else {
            v
        },
        VarView::Free(_) => v,
    }
}

/// The views of a list of free variables, in order.
pub open spec fn free_var_views(s: Seq<FreeVar>) -> Seq<FreeVarView>
    decreases s,
{
    if s.len() == 0 {
        Seq::empty()
    } else {
        free_var_views(s.drop_last()).push(s.last()@)
    }
}

pub proof fn lemma_free_var_views(s: Seq<FreeVar>)
    ensures
        free_var_views(s).len() == s.len(),
        forall|i: int| 0 <= i < s.len() ==> free_var_views(s)[i] == #[trigger] s[i]@,
    decreases s,
{
    if s.len() > 0 {
        lemma_free_var_views(s.drop_last());
        assert forall|i: int| 0 <= i < s.len() implies free_var_views(s)[i] == #[trigger] s[i]@ by {
            if i < s.len() - 1 {
                assert(s.drop_last()[i] == s[i]);
            } else {
                assert(s.last() == s[i]);
            }
        }
    }
}

impl Var {
    /// Structural alpha-equivalence, ignoring display names.
    pub fn alpha_eq(&self, other: &Var) -> (r: bool)
        ensures
            r == var_alpha_eq(self@, other@),
    {
        match (self, other) {
            (Var::Free(x), Var::Free(y)) => x.id == y.id,
            (Var::Bound(x), Var::Bound(y)) => x.index.scope == y.index.scope && x.index.binder
                == y.index.binder,
            _ => false,
        }
    }

    /// Rewrite `Free(name)` to `Bound` at `index`; a no-op on every other
    /// variable, so applying it twice is the same as applying it once.
    pub fn close_at(&mut self, index: Debruijn, name: &FreeVar)
        ensures
            final(self)@ == var_close_at(old(self)@, index, name@),
    {
        let replacement: Option<Named> = match &*self {
            Var::Free(n) => if n.id == name.id {
                Some(Named { name: n.name.clone(), index })
            } else {
                None
            },
            Var::Bound(_) => None,
        };
        if let Some(named) = replacement {
            *self = Var::Bound(named);
        }
    }

    /// Rewrite `Bound` at exactly `index` back to `Free(name)`; a no-op on
    /// every other variable.
    pub fn open_at(&mut self, index: Debruijn, name: &FreeVar)
        ensures
            final(self)@ == var_open_at(old(self)@, index, name@),
    {
        let replacement: Option<FreeVar> = match &*self {
            Var::Bound(n) => if n.index.scope == index.scope && n.index.binder == index.binder {
                Some(name.clone())
            } else {
                None
            },
            Var::Free(_) => None,
        };
        if let Some(free) = replacement {
            *self = Var::Free(free);
        }
    }

    /// Close this variable against a whole pattern of binders at scope depth
    /// `depth`.
    #[verifier::loop_isolation(false)]
    pub fn close_multi(&mut self, depth: u32, binders: &Vec<FreeVar>)
        requires
            binders@.len() <= u32::MAX,
        ensures
            final(self)@ == var_close_multi(old(self)@, depth, free_var_views(binders@)),
    {
        proof {
            lemma_free_var_views(binders@);
        }
        let id: Option<u64> = match &*self {
            Var::Free(n) => Some(n.id),
            Var::Bound(_) => None,
        };
        if let Some(id) = id {
            let ghost views = free_var_views(binders@);
            let mut k: usize = 0;
            let mut found: Option<usize> = None;
            while k < binders.len()
                invariant
                    k <= binders@.len(),
                    match found {
                        Some(f) => f < k && views[f as int].id == id && forall|j: int|
                            0 <= j < f ==> views[j].id != id,
                        None => forall|j: int| 0 <= j < k ==> views[j].id != id,
                    },
                decreases binders@.len() - k,
            {
                proof {
                    assert(views[k as int] == binders@[k as int]@);
                }
                if found.is_none() && binders[k].id == id {
                    found = Some(k);
                }
                k = k + 1;
            }
            proof {
                lemma_find_binder(views, id);
            }
            if let Some(f) = found {
                let replacement: Option<Named> = match &*self {
                    Var::Free(n) => Some(
                        Named {
                            name: n.name.clone(),
                            index: Debruijn { scope: depth, binder: f as u32 },
                        },
                    ),
                    Var::Bound(_) => None,
                };
                if let Some(named) = replacement {
                    *self = Var::Bound(named);
                }
            }
        }
    }

    /// Open this variable against a whole pattern of fresh names at scope
    /// depth `depth`.
    pub fn open_multi(&mut self, depth: u32, names: &Vec<FreeVar>)
        ensures
            final(self)@ == var_open_multi(old(self)@, depth, free_var_views(names@)),
    {
        proof {
            lemma_free_var_views(names@);
        }
        let replacement: Option<FreeVar> = match &*self {
            Var::Bound(n) => if n.index.scope == depth && (n.index.binder as usize) < names.len() {
                Some(names[n.index.binder as usize].clone())
            } else {
                None
            },
            Var::Free(_) => None,
        };
        if let Some(free) = replacement {
            *self = Var::Free(free);
        }
    }
}

/// The deterministic fresh-name allocator: ids are handed out in strictly
/// increasing order, so a name is fresh with respect to everything allocated
/// before it.
#[derive(Debug, PartialEq, Eq)]
pub struct FreshGen {
    pub next_id: u64,
}

impl FreshGen {
    pub fn new() -> (r: FreshGen)
        ensures
            r.next_id == 0,
    {
        FreshGen { next_id: 0 }
    }

    /// Allocate a fresh free variable carrying the display name `name`.
    pub fn fresh(&mut self, name: String) -> (r: FreeVar)
        requires
            old(self).next_id < u64::MAX,
        ensures
            r@.id == old(self).next_id,
            r@.name == name@,
            final(self).next_id == old(self).next_id + 1,
    {
        let id = self.next_id;
        self.next_id = self.next_id + 1;
        FreeVar { name, id }
    }
}

} // verus!
