//! The mark phase of the mark-sweep collection plan: an iterative
//! depth-first traversal from a caller-supplied root set, using a visit
//! callback to enumerate an object's outgoing references.

use vstd::prelude::*;
use vstd::string::StringExecFns;
use crate::heap::HeapError;
use crate::references::ObjectReference;

verus! {

/// Mark-sweep garbage collector state: the root references that are
/// directly accessible.
pub struct MarkSweepGC {
    /// Distinct, non-null root references.
    pub roots: Vec<ObjectReference>,
}

impl MarkSweepGC {
    /// Roots hold no duplicates and no null reference.
    pub open spec fn wf(self) -> bool {
        &&& forall|i: int, j: int| 0 <= i < j < self.roots@.len()
            ==> #[trigger] self.roots@[i] != #[trigger] self.roots@[j]
        &&& forall|i: int| 0 <= i < self.roots@.len() ==> (#[trigger] self.roots@[i]).value != 0
    }

    /// The root set as a set of references.
    pub open spec fn root_set(self) -> Set<ObjectReference> {
        self.roots@.to_set()
    }

    /// A collector with no roots.
    pub fn new() -> (r: Self)
        ensures
            r.wf(),
            r.roots@.len() == 0,
    {
        MarkSweepGC { roots: Vec::new() }
    }

    /// Add a root reference; null references and references already present
    /// are not added.
    pub fn add_root(&mut self, reference: ObjectReference)
        requires
            old(self).wf(),
        ensures
            final(self).wf(),
            final(self).root_set() == if reference.value == 0 {
                old(self).root_set()
            } else {
                old(self).root_set().insert(reference)
            },
    {
        if reference.is_null() {
            return;
        }
        let mut i: usize = 0;
        while i < self.roots.len()
            invariant
                i <= self.roots@.len(),
                *self == *old(self),
                old(self).wf(),
                forall|j: int| 0 <= j < i ==> #[trigger] self.roots@[j] != reference,
            decreases self.roots@.len() - i,
        {
            if self.roots[i].value == reference.value {
                proof {
                    assert(self.roots@[i as int] == reference);
                    assert(old(self).root_set().contains(reference));
                    assert(old(self).root_set().insert(reference) =~= old(self).root_set());
                }
                return;
            }
            i = i + 1;
        }
        self.roots.push(reference);
        proof {
            assert(self.roots@.drop_last() == old(self).roots@);
            assert(self.roots@.last() == reference);
            lemma_to_set_push(old(self).roots@, reference);
            assert forall|a: int, b: int| 0 <= a < b < self.roots@.len()
                implies #[trigger] self.roots@[a] != #[trigger] self.roots@[b] by {
                if b < self.roots@.len() - 1 {
                    assert(old(self).roots@[a] != old(self).roots@[b]);
                }
            }
        }
    }

    /// Remove a root reference, if present.
    pub fn remove_root(&mut self, reference: &ObjectReference)
        requires
            old(self).wf(),
        ensures
            final(self).wf(),
            final(self).root_set() == old(self).root_set().remove(*reference),
    {
        let mut i: usize = 0;
        while i < self.roots.len()
            invariant
                i <= self.roots@.len(),
                *self == *old(self),
                old(self).wf(),
                forall|j: int| 0 <= j < i ==> #[trigger] self.roots@[j] != *reference,
            decreases self.roots@.len() - i,
        {
            if self.roots[i].value == reference.value {
                proof {
                    assert(self.roots@[i as int] == *reference);
                }
                let ghost pre = self.roots@;
                self.roots.remove(i);
                proof {
                    assert(self.roots@ == pre.remove(i as int));
                    lemma_to_set_remove_at(pre, i as int);
                    assert forall|a: int, b: int| 0 <= a < b < self.roots@.len()
                        implies #[trigger] self.roots@[a] != #[trigger] self.roots@[b] by {
                        let a0 = if a < i { a } else { a + 1 };
                        let b0 = if b < i { b } else { b + 1 };
                        assert(self.roots@[a] == pre[a0] && self.roots@[b] == pre[b0]);
                    }
                }
                return;
            }
            i = i + 1;
        }
        proof {
            assert(!old(self).root_set().contains(*reference));
            assert(old(self).root_set().remove(*reference) =~= old(self).root_set());
        }
    }

    /// Clear all roots.
    pub fn clear_roots(&mut self)
        ensures
            final(self).wf(),
            final(self).root_set() == Set::<ObjectReference>::empty(),
            final(self).roots@.len() == 0,
    {
        self.roots.clear();
        proof {
            assert(self.roots@.to_set() =~= Set::<ObjectReference>::empty());
        }
    }

    /// The number of roots held.
    pub fn root_count(&self) -> (r: usize)
        ensures
            r == self.roots@.len(),
    {
        self.roots.len()
    }

    /// Whether a reference is a root.
    pub fn has_root(&self, reference: &ObjectReference) -> (r: bool)
        ensures
            r == self.root_set().contains(*reference),
    {
        let mut i: usize = 0;
        while i < self.roots.len()
            invariant
                i <= self.roots@.len(),
                forall|j: int| 0 <= j < i ==> #[trigger] self.roots@[j] != *reference,
            decreases self.roots@.len() - i,
        {
            if self.roots[i].value == reference.value {
                proof {
                    assert(self.roots@[i as int] == *reference);
                }
                return true;
            }
            i = i + 1;
        }
        proof {
            if self.root_set().contains(*reference) {
                let k = choose|k: int| 0 <= k < self.roots@.len()
                    && self.roots@[k] == *reference;
                assert(false);
            }
        }
        false
    }

    /// Mark phase: mark all objects reachable from the roots, enumerating
    /// each object's outgoing references through the visit callback and
    /// short-circuiting on objects already marked. Every root is marked, no
    /// null reference is marked, and everything marked is a root or was
    /// handed out by a visit. The set comes back as a vector of distinct
    /// references; a traversal longer than the step budget fails as a
    /// collection error.
    pub fn mark<F: Fn(&ObjectReference) -> Result<Vec<ObjectReference>, HeapError>>(
        &self,
        visit_object: F,
    ) -> (r: Result<MarkedSet, HeapError>)
        requires
            self.wf(),
            forall|reference: &ObjectReference| #[trigger] visit_object.requires((reference,)),
        ensures
            match r {
                Result::Ok(marked) => marked.wf()
                    && (forall|q: ObjectReference| self.root_set().contains(q)
                        ==> #[trigger] marked.member_set().contains(q))
                    && (forall|q: ObjectReference| #[trigger] marked.member_set().contains(q)
                        ==> q.value != 0)
                    && (forall|q: ObjectReference| #[trigger] marked.member_set().contains(q)
                        ==> self.root_set().contains(q)
                            || exists|p: ObjectReference, list: Vec<ObjectReference>|
                                visit_object.ensures((&p,), Result::Ok(list))
                                && list@.contains(q))
                    && (forall|q: ObjectReference| #[trigger] marked.member_set().contains(q)
                        ==> exists|list: Vec<ObjectReference>|
                            visit_object.ensures((&q,), Result::Ok(list))
                            && (forall|c: int| 0 <= c < list@.len()
                                ==> (#[trigger] list@[c]).value == 0
                                    || marked.member_set().contains(list@[c]))),
                Result::Err(e) => self.roots@.len() > 0
                    && ((e matches HeapError::GCFailed(_))
                        || exists|p: ObjectReference|
                            visit_object.ensures((&p,), Result::Err(e))),
            },
    {
        let mut marked = MarkedSet::new();
        let ghost mut recorded: Map<ObjectReference, Vec<ObjectReference>> = Map::empty();
        let mut stack: Vec<ObjectReference> = Vec::new();
        let mut i: usize = 0;
        while i < self.roots.len()
            invariant
                i <= self.roots@.len(),
                self.wf(),
                stack@.len() == i,
                forall|j: int| 0 <= j < i ==> #[trigger] stack@[j] == self.roots@[j],
                forall|j: int| 0 <= j < stack@.len() ==> (#[trigger] stack@[j]).value != 0,
            decreases self.roots@.len() - i,
        {
            stack.push(self.roots[i]);
            i = i + 1;
        }
        proof {
            assert forall|q: ObjectReference| self.root_set().contains(q)
                implies stack@.contains(q) by {
                assert(self.roots@.contains(q));
                let k = choose|k: int| 0 <= k < self.roots@.len() && self.roots@[k] == q;
                assert(stack@[k] == q);
            }
            assert forall|q: ObjectReference| #[trigger] stack@.contains(q)
                implies self.root_set().contains(q) by {
                let k = choose|k: int| 0 <= k < stack@.len() && stack@[k] == q;
                assert(self.roots@[k] == q);
                assert(self.roots@.contains(q));
            }
        }
        let mut fuel: u64 = 0xFFFF_FFFF;
        while stack.len() > 0
            invariant
                marked.wf(),
                forall|reference: &ObjectReference| #[trigger] visit_object.requires((reference,)),
                forall|j: int| 0 <= j < stack@.len() ==> (#[trigger] stack@[j]).value != 0,
                forall|q: ObjectReference| self.root_set().contains(q)
                    ==> #[trigger] marked.member_set().contains(q) || stack@.contains(q),
                forall|q: ObjectReference| #[trigger] marked.member_set().contains(q)
                    ==> q.value != 0,
                self.roots@.len() == 0 ==> stack@.len() == 0,
                forall|q: ObjectReference| #[trigger] marked.member_set().contains(q)
                    ==> self.root_set().contains(q)
                        || exists|p: ObjectReference, list: Vec<ObjectReference>|
                            visit_object.ensures((&p,), Result::Ok(list))
                            && list@.contains(q),
                forall|q: ObjectReference| #[trigger] stack@.contains(q)
                    ==> self.root_set().contains(q)
                        || exists|p: ObjectReference, list: Vec<ObjectReference>|
                            visit_object.ensures((&p,), Result::Ok(list))
                            && list@.contains(q),
                forall|q: ObjectReference| #[trigger] marked.member_set().contains(q)
                    ==> recorded.contains_key(q)
                        && visit_object.ensures((&q,), Result::Ok(recorded[q]))
                        && (forall|c: int| 0 <= c < recorded[q]@.len()
                            ==> (#[trigger] recorded[q]@[c]).value == 0
                                || marked.member_set().contains(recorded[q]@[c])
                                || stack@.contains(recorded[q]@[c])),
            decreases fuel,
        {
            if fuel == 0 {
                return Err(HeapError::GCFailed("traversal budget exhausted".to_owned()));
            }
            fuel = fuel - 1;
            let ghost prestack = stack@;
            let reference = match stack.pop() {
                Some(q) => q,
                None => { proof { assert(false); } unreached() },
            };
            proof {
                assert(prestack =~= stack@.push(reference));
                assert forall|q: ObjectReference| self.root_set().contains(q)
                    implies marked.member_set().contains(q)
                        || stack@.contains(q) || q == reference by {
                    if !marked.member_set().contains(q) {
                        assert(prestack.contains(q));
                        let k = choose|k: int| 0 <= k < prestack.len() && prestack[k] == q;
                        if k < stack@.len() {
                            assert(stack@[k] == q);
                        }
                    }
                }
                assert forall|q: ObjectReference| #[trigger] stack@.contains(q) || q == reference
                    implies self.root_set().contains(q)
                        || exists|p: ObjectReference, list: Vec<ObjectReference>|
                            visit_object.ensures((&p,), Result::Ok(list))
                            && list@.contains(q) by {
                    if stack@.contains(q) {
                        let k = choose|k: int| 0 <= k < stack@.len() && stack@[k] == q;
                        assert(prestack[k] == q);
                        assert(prestack.contains(q));
                    } else {
                        assert(prestack[prestack.len() - 1] == q);
                        assert(prestack.contains(q));
                    }
                }
                assert forall|q: ObjectReference| #[trigger] marked.member_set().contains(q)
                    implies recorded.contains_key(q)
                        && visit_object.ensures((&q,), Result::Ok(recorded[q]))
                        && (forall|c: int| 0 <= c < recorded[q]@.len()
                            ==> (#[trigger] recorded[q]@[c]).value == 0
                                || marked.member_set().contains(recorded[q]@[c])
                                || stack@.contains(recorded[q]@[c])
                                || recorded[q]@[c] == reference) by {
                    assert forall|c: int| 0 <= c < recorded[q]@.len()
                        implies (#[trigger] recorded[q]@[c]).value == 0
                            || marked.member_set().contains(recorded[q]@[c])
                            || stack@.contains(recorded[q]@[c])
                            || recorded[q]@[c] == reference by {
                        if !(recorded[q]@[c].value == 0)
                            && !marked.member_set().contains(recorded[q]@[c]) {
                            assert(prestack.contains(recorded[q]@[c]));
                            let w = choose|w: int| 0 <= w < prestack.len()
                                && prestack[w] == recorded[q]@[c];
                            if w < stack@.len() {
                                assert(stack@[w] == recorded[q]@[c]);
                            } else {
                                assert(recorded[q]@[c] == reference);
                            }
                        }
                    }
                }
            }
            if marked.contains(&reference) {
                proof {
                    assert forall|q: ObjectReference| #[trigger] marked.member_set().contains(q)
                        implies recorded.contains_key(q)
                            && visit_object.ensures((&q,), Result::Ok(recorded[q]))
                            && (forall|c: int| 0 <= c < recorded[q]@.len()
                                ==> (#[trigger] recorded[q]@[c]).value == 0
                                    || marked.member_set().contains(recorded[q]@[c])
                                    || stack@.contains(recorded[q]@[c])) by {
                        assert forall|c: int| 0 <= c < recorded[q]@.len()
                            implies (#[trigger] recorded[q]@[c]).value == 0
                                || marked.member_set().contains(recorded[q]@[c])
                                || stack@.contains(recorded[q]@[c]) by {
                            if recorded[q]@[c] == reference {
                                assert(marked.member_set().contains(reference));
                            }
                        }
                    }
                }
                continue;
            }
            marked.insert(reference);
            proof {
                assert(stack@.contains(reference) || reference == reference);
                assert forall|q: ObjectReference| #[trigger] marked.member_set().contains(q)
                    implies self.root_set().contains(q)
                        || exists|p: ObjectReference, list: Vec<ObjectReference>|
                            visit_object.ensures((&p,), Result::Ok(list))
                            && list@.contains(q) by {
                    if q == reference {
                        assert(stack@.contains(reference)
                            || self.root_set().contains(reference)
                            || exists|p: ObjectReference, list: Vec<ObjectReference>|
                                visit_object.ensures((&p,), Result::Ok(list))
                                && list@.contains(reference));
                        if stack@.contains(reference) {
                        }
                    }
                }
            }
            let visited = visit_object(&reference);
            let references = match visited {
                Ok(list) => list,
                Err(e) => {
                    return Err(e);
                },
            };
            let mut k: usize = 0;
            while k < references.len()
                invariant
                    k <= references@.len(),
                    marked.wf(),
                    marked.member_set().contains(reference),
                    visit_object.ensures((&reference,), Result::Ok(references)),
                    forall|j: int| 0 <= j < stack@.len() ==> (#[trigger] stack@[j]).value != 0,
                    forall|q: ObjectReference| self.root_set().contains(q)
                        ==> #[trigger] marked.member_set().contains(q) || stack@.contains(q),
                    forall|q: ObjectReference| #[trigger] marked.member_set().contains(q)
                        ==> q.value != 0,
                    forall|q: ObjectReference| #[trigger] marked.member_set().contains(q)
                        && q != reference
                        ==> recorded.contains_key(q)
                            && visit_object.ensures((&q,), Result::Ok(recorded[q]))
                            && (forall|c: int| 0 <= c < recorded[q]@.len()
                                ==> (#[trigger] recorded[q]@[c]).value == 0
                                    || marked.member_set().contains(recorded[q]@[c])
                                    || stack@.contains(recorded[q]@[c])),
                    forall|c: int| 0 <= c < k as int
                        ==> (#[trigger] references@[c]).value == 0
                            || marked.member_set().contains(references@[c])
                            || stack@.contains(references@[c]),
                    forall|q: ObjectReference| #[trigger] marked.member_set().contains(q)
                        ==> self.root_set().contains(q)
                            || exists|p: ObjectReference, list: Vec<ObjectReference>|
                                visit_object.ensures((&p,), Result::Ok(list))
                                && list@.contains(q),
                    forall|q: ObjectReference| #[trigger] stack@.contains(q)
                        ==> self.root_set().contains(q)
                            || exists|p: ObjectReference, list: Vec<ObjectReference>|
                                visit_object.ensures((&p,), Result::Ok(list))
                                && list@.contains(q),
                decreases references@.len() - k,
            {
                let child = references[k];
                if !child.is_null() && !marked.contains(&child) {
                    let ghost pre = stack@;
                    stack.push(child);
                    proof {
                        assert forall|q: ObjectReference| self.root_set().contains(q)
                            implies marked.member_set().contains(q)
                                || stack@.contains(q) by {
                            if !marked.member_set().contains(q) && pre.contains(q) {
                                let w = choose|w: int| 0 <= w < pre.len() && pre[w] == q;
                                assert(stack@[w] == q);
                            }
                        }
                        assert forall|q: ObjectReference| #[trigger] stack@.contains(q)
                            implies self.root_set().contains(q)
                                || exists|p: ObjectReference, list: Vec<ObjectReference>|
                                    visit_object.ensures((&p,), Result::Ok(list))
                                    && list@.contains(q) by {
                            let w = choose|w: int| 0 <= w < stack@.len() && stack@[w] == q;
                            if w < pre.len() {
                                assert(pre[w] == q);
                                assert(pre.contains(q));
                            } else {
                                assert(q == child);
                                assert(references@.contains(q));
                                assert(visit_object.ensures((&reference,),
                                    Result::Ok(references)) && references@.contains(q));
                            }
                        }
                        assert forall|z: ObjectReference| #[trigger] pre.contains(z)
                            implies stack@.contains(z) by {
                            let w = choose|w: int| 0 <= w < pre.len() && pre[w] == z;
                            assert(stack@[w] == z);
                        }
                        assert forall|q: ObjectReference|
                            #[trigger] marked.member_set().contains(q) && q != reference
                            implies recorded.contains_key(q)
                                && visit_object.ensures((&q,), Result::Ok(recorded[q]))
                                && (forall|c: int| 0 <= c < recorded[q]@.len()
                                    ==> (#[trigger] recorded[q]@[c]).value == 0
                                        || marked.member_set().contains(recorded[q]@[c])
                                        || stack@.contains(recorded[q]@[c])) by {
                            assert forall|c: int| 0 <= c < recorded[q]@.len()
                                implies (#[trigger] recorded[q]@[c]).value == 0
                                    || marked.member_set().contains(recorded[q]@[c])
                                    || stack@.contains(recorded[q]@[c]) by {
                                if pre.contains(recorded[q]@[c]) {
                                    assert(stack@.contains(recorded[q]@[c]));
                                }
                            }
                        }
                        assert forall|c: int| 0 <= c < k as int + 1
                            implies (#[trigger] references@[c]).value == 0
                                || marked.member_set().contains(references@[c])
                                || stack@.contains(references@[c]) by {
                            if c < k as int {
                                if pre.contains(references@[c]) {
                                    assert(stack@.contains(references@[c]));
                                }
                            } else {
                                assert(references@[c] == child);
                                assert(stack@[stack@.len() - 1] == child);
                            }
                        }
                    }
                }
                k = k + 1;
            }
            proof {
                recorded = recorded.insert(reference, references);
                assert(recorded[reference] == references);
                assert forall|q: ObjectReference| #[trigger] marked.member_set().contains(q)
                    implies recorded.contains_key(q)
                        && visit_object.ensures((&q,), Result::Ok(recorded[q]))
                        && (forall|c: int| 0 <= c < recorded[q]@.len()
                            ==> (#[trigger] recorded[q]@[c]).value == 0
                                || marked.member_set().contains(recorded[q]@[c])
                                || stack@.contains(recorded[q]@[c])) by {
                    if q != reference {
                        assert(recorded[q] == recorded.remove(reference)[q]
                            || recorded[q] == recorded[q]);
                    }
                }
            }
        }
        proof {
            assert forall|q: ObjectReference| self.root_set().contains(q)
                implies #[trigger] marked.member_set().contains(q) by {
                if !marked.member_set().contains(q) {
                    assert(stack@.contains(q));
                    let w = choose|w: int| 0 <= w < stack@.len() && stack@[w] == q;
                    assert(false);
                }
            }
            assert forall|q: ObjectReference| #[trigger] marked.member_set().contains(q)
                implies exists|list: Vec<ObjectReference>|
                    visit_object.ensures((&q,), Result::Ok(list))
                    && (forall|c: int| 0 <= c < list@.len()
                        ==> (#[trigger] list@[c]).value == 0
                            || marked.member_set().contains(list@[c])) by {
                assert(visit_object.ensures((&q,), Result::Ok(recorded[q])));
                assert forall|c: int| 0 <= c < recorded[q]@.len()
                    implies (#[trigger] recorded[q]@[c]).value == 0
                        || marked.member_set().contains(recorded[q]@[c]) by {
                    if stack@.contains(recorded[q]@[c]) {
                        let w = choose|w: int| 0 <= w < stack@.len()
                            && stack@[w] == recorded[q]@[c];
                        assert(false);
                    }
                }
            }
        }
        Ok(marked)
    }
}

/// The set of references marked by a traversal, as a vector of distinct
/// references.
#[derive(Debug)]
pub struct MarkedSet {
    pub members: Vec<ObjectReference>,
}

impl MarkedSet {
    /// Members hold no duplicates.
    pub open spec fn wf(self) -> bool {
        forall|i: int, j: int| 0 <= i < j < self.members@.len()
            ==> #[trigger] self.members@[i] != #[trigger] self.members@[j]
    }

    /// The members as a set.
    pub open spec fn member_set(self) -> Set<ObjectReference> {
        self.members@.to_set()
    }

    /// An empty set.
    pub fn new() -> (r: Self)
        ensures
            r.wf(),
            r.member_set() == Set::<ObjectReference>::empty(),
            r.members@.len() == 0,
    {
        let r = MarkedSet { members: Vec::new() };
        proof {
            assert(r.members@.to_set() =~= Set::<ObjectReference>::empty());
        }
        r
    }

    /// The number of marked references.
    pub fn len(&self) -> (r: usize)
        ensures
            r == self.members@.len(),
    {
        self.members.len()
    }

    /// Whether a reference has been marked.
    pub fn contains(&self, reference: &ObjectReference) -> (r: bool)
        ensures
            r == self.member_set().contains(*reference),
    {
        let mut i: usize = 0;
        while i < self.members.len()
            invariant
                i <= self.members@.len(),
                forall|j: int| 0 <= j < i ==> #[trigger] self.members@[j] != *reference,
            decreases self.members@.len() - i,
        {
            if self.members[i].value == reference.value {
                proof {
                    assert(self.members@[i as int] == *reference);
                }
                return true;
            }
            i = i + 1;
        }
        proof {
            if self.member_set().contains(*reference) {
                let k = choose|k: int| 0 <= k < self.members@.len()
                    && self.members@[k] == *reference;
                assert(false);
            }
        }
        false
    }

    /// Mark a reference not yet marked.
    pub fn insert(&mut self, reference: ObjectReference)
        requires
            old(self).wf(),
            !old(self).member_set().contains(reference),
        ensures
            final(self).wf(),
            final(self).member_set() == old(self).member_set().insert(reference),
    {
        proof {
            assert forall|j: int| 0 <= j < self.members@.len()
                implies #[trigger] self.members@[j] != reference by {
                if self.members@[j] == reference {
                    assert(self.member_set().contains(reference));
                }
            }
        }
        self.members.push(reference);
        proof {
            assert(self.members@.drop_last() == old(self).members@);
            lemma_to_set_push(old(self).members@, reference);
            assert forall|a: int, b: int| 0 <= a < b < self.members@.len()
                implies #[trigger] self.members@[a] != #[trigger] self.members@[b] by {
                if b < self.members@.len() - 1 {
                    assert(old(self).members@[a] != old(self).members@[b]);
                }
            }
        }
    }
}

proof fn lemma_to_set_push(s: Seq<ObjectReference>, q: ObjectReference)
    ensures
        s.push(q).to_set() == s.to_set().insert(q),
{
    assert(s.push(q).to_set() =~= s.to_set().insert(q)) by {
        assert forall|x: ObjectReference| s.push(q).to_set().contains(x)
            implies s.to_set().insert(q).contains(x) by {
            let k = choose|k: int| 0 <= k < s.push(q).len() && s.push(q)[k] == x;
            if k < s.len() {
                assert(s[k] == x);
            }
        }
        assert forall|x: ObjectReference| s.to_set().insert(q).contains(x)
            implies s.push(q).to_set().contains(x) by {
            if x == q {
                assert(s.push(q)[s.len() as int] == x);
            } else {
                let k = choose|k: int| 0 <= k < s.len() && s[k] == x;
                assert(s.push(q)[k] == x);
            }
        }
    }
}

proof fn lemma_to_set_remove_at(s: Seq<ObjectReference>, i: int)
    requires
        0 <= i < s.len(),
        forall|a: int, b: int| 0 <= a < b < s.len() ==> #[trigger] s[a] != #[trigger] s[b],
    ensures
        s.remove(i).to_set() == s.to_set().remove(s[i]),
{
    assert(s.remove(i).to_set() =~= s.to_set().remove(s[i])) by {
        assert forall|x: ObjectReference| s.remove(i).to_set().contains(x)
            implies s.to_set().remove(s[i]).contains(x) by {
            let k = choose|k: int| 0 <= k < s.remove(i).len() && s.remove(i)[k] == x;
            let k0 = if k < i { k } else { k + 1 };
            assert(s[k0] == x);
            assert(x != s[i]);
        }
        assert forall|x: ObjectReference| s.to_set().remove(s[i]).contains(x)
            implies s.remove(i).to_set().contains(x) by {
            let k = choose|k: int| 0 <= k < s.len() && s[k] == x;
            assert(k != i);
            let k1 = if k < i { k } else { k - 1 };
            assert(s.remove(i)[k1] == x);
        }
    }
}

} // verus!
