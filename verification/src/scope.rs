//! The scope tree: a flat array of scopes, each with a link to its parent.

use vstd::prelude::*;

verus! {

/// The index of a scope.  The root scope is `ScopeId(0)`.
#[derive(Clone, Copy, Debug, PartialEq, Eq, Structural)]
pub struct ScopeId(pub usize);

impl ScopeId {
    /// The root scope.
    pub fn root() -> (id: ScopeId)
        ensures
            id == ScopeId(0),
    {
        ScopeId(0)
    }

    /// The index into the array of scopes.
    pub fn index(self) -> (i: usize)
        ensures
            i == self.0,
    {
        self.0
    }
}

/// One scope: its place in the tree and what it carries.
pub struct Scope<T> {
    /// The index of this scope.
    pub id: ScopeId,
    /// The parent of this scope; the root has none.
    pub parent: Option<ScopeId>,
    /// The scopes above this one, from the root down to the parent.
    pub ancestors: Vec<ScopeId>,
    /// What the scope carries.
    pub data: T,
}

/// The parents of a scope tree as a mathematical value: one entry per
/// scope, `None` for the root.
pub type Parents = Seq<Option<int>>;

/// Whether `parents` describes a tree: the root comes first and has no
/// parent, and every other scope has a parent that comes before it.
pub open spec fn parents_wf(parents: Parents) -> bool {
    &&& parents.len() > 0
    &&& parents[0].is_none()
    &&& forall|i: int|
        0 < i < parents.len() ==> (#[trigger] parents[i]).is_some() && 0 <= parents[i]->Some_0 < i
}

/// The scopes above scope `i`, from the root down to its parent.
pub open spec fn ancestors_of(parents: Parents, i: int) -> Seq<ScopeId>
    decreases i,
{
    if 0 < i < parents.len() {
        match parents[i] {
            Some(p) => if 0 <= p < i {
                ancestors_of(parents, p).push(ScopeId(p as usize))
            } else {
                Seq::empty()
            },
            None => Seq::empty(),
        }
    } else {
        Seq::empty()
    }
}

/// The scopes from the root down to scope `i`, with `i` itself last.
pub open spec fn chain_of(parents: Parents, i: int) -> Seq<ScopeId> {
    ancestors_of(parents, i).push(ScopeId(i as usize))
}

/// The chain of a scope under a well-formed tree starts at the root, names
/// scopes of the tree only, and rises strictly.
pub proof fn lemma_chain(parents: Parents, i: int)
    requires
        parents_wf(parents),
        0 <= i < parents.len(),
    ensures
        chain_of(parents, i)[0] == ScopeId(0),
        forall|k: int|
            0 <= k < chain_of(parents, i).len() ==> (#[trigger] chain_of(parents, i)[k]).0 <= i,
        forall|k: int|
            0 <= k < ancestors_of(parents, i).len() ==> (#[trigger] ancestors_of(parents, i)[k]).0
                < i,
    decreases i,
{
    if i > 0 {
        let p = parents[i]->Some_0;
        lemma_chain(parents, p);
        assert forall|k: int| 0 <= k < ancestors_of(parents, i).len() implies (
        #[trigger] ancestors_of(parents, i)[k]).0 < i by {
            if k < ancestors_of(parents, p).len() {
                assert(ancestors_of(parents, i)[k] == ancestors_of(parents, p)[k]);
            }
        }
        assert(chain_of(parents, i)[0] == chain_of(parents, p)[0]);
    }
}

impl<T> Scope<T> {
    /// The index of this scope.
    pub fn id(&self) -> (id: ScopeId)
        ensures
            id == self.id,
    {
        self.id
    }

    /// The parent of this scope.
    pub fn parent(&self) -> (p: Option<ScopeId>)
        ensures
            p == self.parent,
    {
        self.parent
    }

    /// The scopes above this one, from the root down to the parent.
    pub fn ancestors(&self) -> (a: &Vec<ScopeId>)
        ensures
            a@ == self.ancestors@,
    {
        &self.ancestors
    }

}

/// The array of scopes.
pub struct Scopes<T> {
    /// The scopes, in the order of their indices.
    pub scopes: Vec<Scope<T>>,
}

impl<T> Scopes<T> {
    /// The scopes, in the order of their indices.
    pub open spec fn items(&self) -> Seq<Scope<T>> {
        self.scopes@
    }

    /// The number of scopes.
    pub open spec fn spec_len(&self) -> nat {
        self.items().len()
    }

    /// The parent of each scope.
    pub open spec fn parents(&self) -> Parents {
        Seq::new(
            self.items().len(),
            |i: int|
                match self.items()[i].parent {
                    Some(p) => Some(p.0 as int),
                    None => None,
                },
        )
    }

    /// What scope `i` carries.
    pub open spec fn data(&self, i: int) -> T {
        self.items()[i].data
    }

    /// The invariant: the parents form a tree, and every scope knows its
    /// index and the scopes above it.
    pub open spec fn wf(&self) -> bool {
        &&& parents_wf(self.parents())
        &&& forall|i: int|
            0 <= i < self.items().len() ==> (#[trigger] self.items()[i]).id == ScopeId(
                i as usize,
            ) && self.items()[i].ancestors@ == ancestors_of(self.parents(), i)
    }

    /// A tree that holds the root scope alone.
    pub fn new(root: T) -> (s: Scopes<T>)
        ensures
            s.wf(),
            s.spec_len() == 1,
            s.data(0) == root,
    {
        let mut scopes: Vec<Scope<T>> = Vec::new();
        scopes.push(Scope { id: ScopeId(0), parent: None, ancestors: Vec::new(), data: root });
        let s = Scopes { scopes };
        assert(s.items()[0].ancestors@ =~= ancestors_of(s.parents(), 0));
        s
    }

    /// The number of scopes.
    pub fn len(&self) -> (n: usize)
        ensures
            n == self.spec_len(),
    {
        self.scopes.len()
    }

    /// The scope with index `id`.
    pub fn get(&self, id: ScopeId) -> (s: &Scope<T>)
        requires
            id.0 < self.spec_len(),
        ensures
            *s == self.items()[id.0 as int],
    {
        &self.scopes[id.0]
    }

    /// Replaces what scope `id` carries.
    pub fn set_data(&mut self, id: ScopeId, data: T)
        requires
            id.0 < old(self).spec_len(),
        ensures
            final(self).spec_len() == old(self).spec_len(),
            final(self).parents() == old(self).parents(),
            final(self).data(id.0 as int) == data,
            forall|i: int|
                0 <= i < old(self).spec_len() && i != id.0 ==> #[trigger] final(self).data(i)
                    == old(self).data(i),
            old(self).wf() ==> final(self).wf(),
    {
        self.scopes[id.0].data = data;
        assert(self.parents() =~= old(self).parents());
    }

    /// The scopes from the root down to scope `id`, with `id` last.
    pub fn chain(&self, id: ScopeId) -> (c: Vec<ScopeId>)
        requires
            self.wf(),
            id.0 < self.spec_len(),
        ensures
            c@ == chain_of(self.parents(), id.0 as int),
    {
        let above = &self.scopes[id.0].ancestors;
        let mut c: Vec<ScopeId> = Vec::new();
        let mut k: usize = 0;
        while k < above.len()
            invariant
                k <= above@.len(),
                c@ == above@.take(k as int),
            decreases above@.len() - k,
        {
            c.push(above[k]);
            assert(c@ =~= above@.take(k + 1));
            k = k + 1;
        }
        assert(above@.take(k as int) =~= above@);
        c.push(id);
        c
    }

    /// Adds a scope under `parent` and returns its index.
    pub fn add(&mut self, parent: ScopeId, data: T) -> (id: ScopeId)
        requires
            old(self).wf(),
            parent.0 < old(self).spec_len(),
        ensures
            final(self).wf(),
            id.0 == old(self).spec_len(),
            final(self).spec_len() == old(self).spec_len() + 1,
            final(self).parents() == old(self).parents().push(Some(parent.0 as int)),
            final(self).data(id.0 as int) == data,
            forall|i: int|
                0 <= i < old(self).spec_len() ==> #[trigger] final(self).data(i) == old(self).data(
                    i,
                ),
    {
        let id = ScopeId(self.scopes.len());
        let ghost before = self.parents();
        let mut ancestors: Vec<ScopeId> = Vec::new();
        let above = &self.scopes[parent.0].ancestors;
        let mut k: usize = 0;
        while k < above.len()
            invariant
                k <= above@.len(),
                ancestors@ == above@.take(k as int),
            decreases above@.len() - k,
        {
            ancestors.push(above[k]);
            assert(ancestors@ =~= above@.take(k + 1));
            k = k + 1;
        }
        assert(above@.take(k as int) =~= above@);
        ancestors.push(parent);
        self.scopes.push(Scope { id, parent: Some(parent), ancestors, data });
        proof {
            let after = self.parents();
            assert(after =~= before.push(Some(parent.0 as int)));
            assert forall|i: int| 0 <= i < self.items().len() implies ancestors_of(after, i)
                == ancestors_of(before, i) || i == id.0 by {
                if i < id.0 {
                    lemma_ancestors_push(before, Some(parent.0 as int), i);
                }
            }
            lemma_ancestors_push(before, Some(parent.0 as int), parent.0 as int);
            assert(self.items()[parent.0 as int] == old(self).items()[parent.0 as int]);
            assert forall|i: int| 0 <= i < self.items().len() implies (
            #[trigger] self.items()[i]).id == ScopeId(i as usize)
                && self.items()[i].ancestors@ == ancestors_of(after, i) by {
                if i < id.0 {
                    assert(self.items()[i] == old(self).items()[i]);
                }
            }
            assert forall|i: int| 0 < i < after.len() implies (#[trigger] after[i]).is_some() && 0
                <= after[i]->Some_0 < i by {
                if i < id.0 {
                    assert(after[i] == before[i]);
                }
            }
        }
        id
    }
}

/// A scope added at the end changes the ancestors of no scope before it.
pub proof fn lemma_ancestors_push(parents: Parents, last: Option<int>, i: int)
    requires
        parents_wf(parents),
        0 <= i < parents.len(),
    ensures
        ancestors_of(parents.push(last), i) == ancestors_of(parents, i),
    decreases i,
{
    if i > 0 {
        let p = parents[i]->Some_0;
        assert(parents.push(last)[i] == parents[i]);
        lemma_ancestors_push(parents, last, p);
    }
}

} // verus!
