//! The store: the one current `DocumentSet`, replaced whole on each reload.
use vstd::prelude::*;
use std::sync::Arc;
use crate::document::{DocumentSet, Post};

verus! {

/// Relies on `Arc::clone`: a new handle to the same value.
#[verifier::external_body]
fn share(a: &Arc<DocumentSet>) -> (r: Arc<DocumentSet>)
    ensures
        *r == **a,
{
    Arc::clone(a)
}

/// Holds the current snapshot. Readers take a handle to a whole snapshot;
/// `replace` swaps in a new one, so a reader holds either the old set or
/// the new one, never a mixture.
pub struct Store {
    current: Arc<DocumentSet>,
}

impl Store {
    /// The snapshot the store currently serves.
    pub closed spec fn snapshot(&self) -> DocumentSet {
        *self.current
    }

    pub open spec fn wf(&self) -> bool {
        self.snapshot().wf()
    }

    /// A store that serves `initial`.
    pub fn new(initial: DocumentSet) -> (r: Store)
        requires
            initial.wf(),
        ensures
            r.wf(),
            r.snapshot() == initial,
    {
        Store { current: Arc::new(initial) }
    }

    /// The current snapshot, whole.
    pub fn get_all(&self) -> (r: Arc<DocumentSet>)
        ensures
            *r == self.snapshot(),
    {
        share(&self.current)
    }

    /// Looks a document up in the current snapshot.
    pub fn get(&self, slug: &String) -> (r: Option<&Post>)
        requires
            self.wf(),
        ensures
            r is Some <==> self.snapshot()@.contains_key(slug@),
            r is Some ==> *r->0 == self.snapshot()@[slug@],
    {
        self.current.get(slug)
    }

    /// Makes `new_set` the current snapshot, in one step.
    pub fn replace(&mut self, new_set: DocumentSet)
        requires
            new_set.wf(),
        ensures
            final(self).wf(),
            final(self).snapshot() == new_set,
    {
        self.current = Arc::new(new_set);
    }
}

} // verus!
