//! The memory manager: a registry of heaps, a current-heap selector, and
//! cross-heap dereference through packed object references.

use vstd::prelude::*;
use vstd::string::StringExecFns;
use crate::decimal::u64_string;
use crate::heap::{HeapError, HeapManager, StandardHeap};
use crate::references::ObjectReference;

verus! {

/// Result type for memory operations.
pub type MemoryResult<T> = Result<T, MemoryError>;

/// Possible memory management errors.
#[derive(Debug)]
pub enum MemoryError {
    AllocationFailed(String),
    InvalidReference(String),
    HeapError(String),
}

impl MemoryError {
    /// The message the error carries.
    pub fn describe(&self) -> String {
        match self {
            MemoryError::AllocationFailed(s) => {
                let mut out = "Failed to allocate memory: ".to_owned();
                out.append(s.as_str());
                out
            },
            MemoryError::InvalidReference(s) => {
                let mut out = "Invalid reference: ".to_owned();
                out.append(s.as_str());
                out
            },
            MemoryError::HeapError(s) => {
                let mut out = "Operation on current heap failed: ".to_owned();
                out.append(s.as_str());
                out
            },
        }
    }

    /// Wrap a heap error the way the conversion from heap errors did.
    pub fn from_heap_error(e: HeapError) -> Self {
        MemoryError::HeapError(e.describe())
    }
}

/// Operations that a stored object must expose: its size in bytes and a
/// unique type identifier. Implemented by whatever payload type a memory
/// manager is instantiated at.
pub trait MemoryObject {
    /// The size the object reports; an implementation that states more of
    /// `size` overrides this default alongside it.
    open spec fn spec_size(&self) -> usize {
        0
    }

    /// The type identifier the object reports; overridden alongside
    /// `type_id`.
    open spec fn spec_type_id(&self) -> u32 {
        0
    }

    /// The size of this object in bytes.
    fn size(&self) -> (r: usize)
        ensures
            r == self.spec_size(),
    ;

    /// A unique type identifier for this object.
    fn type_id(&self) -> (r: u32)
        ensures
            r == self.spec_type_id(),
    ;
}

/// The MemoryManager coordinates all memory operations across multiple
/// heaps. A default heap with id one exists from construction, and the
/// currently selected heap is always present in the registry.
pub struct MemoryManager<T> {
    pub heaps: Vec<StandardHeap<T>>,
    pub current_heap_id: u32,
    pub heap_manager: HeapManager,
}

impl<T> MemoryManager<T> {
    /// All heaps well-formed with distinct ids, and the selected heap
    /// present.
    pub open spec fn wf(self) -> bool {
        &&& forall|i: int| 0 <= i < self.heaps@.len() ==> (#[trigger] self.heaps@[i]).wf()
        &&& forall|i: int, j: int| 0 <= i < j < self.heaps@.len()
            ==> (#[trigger] self.heaps@[i]).id != (#[trigger] self.heaps@[j]).id
        &&& self.spec_has_heap(self.current_heap_id)
    }

    /// Two managers with the same registry contents, selection and id state.
    pub open spec fn state_eq(self, other: Self) -> bool {
        &&& self.heaps@ == other.heaps@
        &&& self.current_heap_id == other.current_heap_id
        &&& self.heap_manager == other.heap_manager
    }

    /// Whether the registry holds a heap with the given id.
    pub open spec fn spec_has_heap(self, heap_id: u32) -> bool {
        exists|i: int| 0 <= i < self.heaps@.len() && (#[trigger] self.heaps@[i]).id == heap_id
    }

    /// Whether dereferencing the reference with the given type id succeeds:
    /// a non-null reference into a known heap that holds the object id with
    /// the requested type.
    pub open spec fn spec_lookup_ok(self, reference: ObjectReference, expected_type_id: u32) -> bool {
        &&& reference.value != 0
        &&& exists|i: int, k: int| 0 <= i < self.heaps@.len()
            && self.heaps@[i].id == reference.spec_heap_id()
            && 0 <= k < self.heaps@[i].objects@.len()
            && (#[trigger] self.heaps@[i].objects@[k]).id == reference.spec_object_id()
            && self.heaps@[i].objects@[k].type_id == expected_type_id
    }

    /// A manager with one default heap, id one, selected.
    pub fn new() -> (r: Self)
        ensures
            r.wf(),
            r.current_heap_id == 1,
            r.heaps@.len() == 1,
            r.heaps@[0].id == 1,
            r.heaps@[0].objects@.len() == 0,
            r.heap_manager.next_id == 2,
    {
        let mut heap_manager = HeapManager::new();
        let first = heap_manager.next_heap_id();
        let heap: StandardHeap<T> = match heap_manager.create_heap(first) {
            Ok(h) => h,
            Err(_) => { proof { assert(false); } unreached() },
        };
        let mut heaps: Vec<StandardHeap<T>> = Vec::new();
        heaps.push(heap);
        let r = MemoryManager { heaps, current_heap_id: 1, heap_manager };
        proof {
            assert(r.heaps@.len() == 1);
            assert(r.heaps@[0] == heap);
            assert(r.heaps@[0].id == 1);
            assert(r.spec_has_heap(1));
        }
        r
    }

    /// Create a new heap and return its id; heap ids increase monotonically.
    /// When the 32-bit id space has wrapped all the way around, creation is
    /// refused rather than a heap overwritten.
    pub fn create_heap(&mut self) -> (r: Result<u32, MemoryError>)
        requires
            old(self).wf(),
        ensures
            final(self).wf(),
            final(self).current_heap_id == old(self).current_heap_id,
            match r {
                Result::Ok(id) => id == old(self).heap_manager.next_id
                    && !old(self).spec_has_heap(id)
                    && final(self).heaps@.len() == old(self).heaps@.len() + 1
                    && final(self).heaps@.drop_last() == old(self).heaps@
                    && final(self).heaps@.last().id == id
                    && final(self).heaps@.last().objects@.len() == 0
                    && final(self).heap_manager.next_id
                        == vstd::wrapping::u32_specs::wrapping_add(old(self).heap_manager.next_id, 1)
                    && final(self).spec_has_heap(id),
                Result::Err(_) => old(self).spec_has_heap(old(self).heap_manager.next_id)
                    && final(self).state_eq(*old(self)),
            },
    {
        let candidate = self.heap_manager.next_id;
        let mut i: usize = 0;
        while i < self.heaps.len()
            invariant
                i <= self.heaps@.len(),
                *self == *old(self),
                old(self).wf(),
                candidate == self.heap_manager.next_id,
                forall|j: int| 0 <= j < i ==> (#[trigger] self.heaps@[j]).id != candidate,
            decreases self.heaps@.len() - i,
        {
            if self.heaps[i].id == candidate {
                return Err(MemoryError::HeapError("heap ids exhausted".to_owned()));
            }
            i = i + 1;
        }
        let heap_id = self.heap_manager.next_heap_id();
        let heap = match self.heap_manager.create_heap(heap_id) {
            Ok(h) => h,
            Err(_) => { proof { assert(false); } unreached() },
        };
        self.heaps.push(heap);
        proof {
            assert(self.heaps@.drop_last() =~= old(self).heaps@);
            assert(self.heaps@[self.heaps@.len() - 1].id == heap_id);
            let w = choose|k: int| 0 <= k < old(self).heaps@.len()
                && (#[trigger] old(self).heaps@[k]).id == old(self).current_heap_id;
            assert(self.heaps@[w].id == old(self).current_heap_id);
        }
        Ok(heap_id)
    }

    /// Switch the current heap to the specified heap id; an unknown id is an
    /// error and leaves the selection unchanged.
    pub fn switch_heap(&mut self, heap_id: u32) -> (r: Result<(), MemoryError>)
        requires
            old(self).wf(),
        ensures
            final(self).wf(),
            final(self).heaps == old(self).heaps,
            final(self).heap_manager == old(self).heap_manager,
            match r {
                Result::Ok(()) => old(self).spec_has_heap(heap_id)
                    && final(self).current_heap_id == heap_id,
                Result::Err(_) => !old(self).spec_has_heap(heap_id)
                    && final(self).current_heap_id == old(self).current_heap_id,
            },
    {
        let mut i: usize = 0;
        while i < self.heaps.len()
            invariant
                i <= self.heaps@.len(),
                *self == *old(self),
                old(self).wf(),
                forall|j: int| 0 <= j < i ==> (#[trigger] self.heaps@[j]).id != heap_id,
            decreases self.heaps@.len() - i,
        {
            if self.heaps[i].id == heap_id {
                self.current_heap_id = heap_id;
                proof {
                    assert(self.heaps@[i as int].id == heap_id);
                    assert(self.spec_has_heap(heap_id));
                }
                return Ok(());
            }
            i = i + 1;
        }
        let mut msg = "Heap ".to_owned();
        msg.append(u64_string(heap_id as u64).as_str());
        msg.append(" does not exist");
        Err(MemoryError::HeapError(msg))
    }

    /// The current heap id being used for allocations.
    pub fn current_heap_id(&self) -> (r: u32)
        ensures
            r == self.current_heap_id,
    {
        self.current_heap_id
    }

    /// Trigger garbage collection on a specific heap; an unknown id is an
    /// error.
    pub fn collect_heap(&mut self, heap_id: u32) -> (r: Result<(), MemoryError>)
        requires
            old(self).wf(),
        ensures
            final(self).wf(),
            final(self).state_eq(*old(self)),
            match r {
                Result::Ok(()) => old(self).spec_has_heap(heap_id),
                Result::Err(_) => !old(self).spec_has_heap(heap_id),
            },
    {
        let mut i: usize = 0;
        while i < self.heaps.len()
            invariant
                i <= self.heaps@.len(),
                *self == *old(self),
                old(self).wf(),
                forall|j: int| 0 <= j < i ==> (#[trigger] self.heaps@[j]).id != heap_id,
            decreases self.heaps@.len() - i,
        {
            if self.heaps[i].id == heap_id {
                proof { assert(old(self).spec_has_heap(heap_id)); }
                match self.collect_at(i) {
                    Ok(()) => { return Ok(()); },
                    Err(e) => { return Err(MemoryError::from_heap_error(e)); },
                }
            }
            i = i + 1;
        }
        let mut msg = "Heap ".to_owned();
        msg.append(u64_string(heap_id as u64).as_str());
        msg.append(" does not exist");
        Err(MemoryError::HeapError(msg))
    }

    /// Run one heap's collector.
    fn collect_at(&mut self, i: usize) -> (r: Result<(), HeapError>)
        requires
            old(self).wf(),
            i < old(self).heaps@.len(),
        ensures
            final(self).state_eq(*old(self)),
            r is Ok,
    {
        let heap = &mut self.heaps[i];
        let r = heap.collect();
        proof {
            assert(self.heaps@ =~= old(self).heaps@);
        }
        r
    }

    /// Trigger garbage collection on all heaps.
    pub fn collect_all(&mut self) -> (r: Result<(), MemoryError>)
        requires
            old(self).wf(),
        ensures
            final(self).wf(),
            final(self).state_eq(*old(self)),
            r is Ok,
    {
        let mut i: usize = 0;
        while i < self.heaps.len()
            invariant
                i <= self.heaps@.len(),
                self.state_eq(*old(self)),
                old(self).wf(),
            decreases self.heaps@.len() - i,
        {
            match self.collect_at(i) {
                Ok(()) => {},
                Err(_) => { proof { assert(false); } },
            }
            i = i + 1;
        }
        Ok(())
    }
}

impl<T: MemoryObject> MemoryManager<T> {
    /// Allocate an object in the current heap, and wrap the heap id and the
    /// returned object id into an object reference.
    pub fn allocate(&mut self, object: T) -> (r: Result<ObjectReference, MemoryError>)
        requires
            old(self).wf(),
        ensures
            final(self).wf(),
            final(self).current_heap_id == old(self).current_heap_id,
            final(self).heaps@.len() == old(self).heaps@.len(),
            final(self).heap_manager == old(self).heap_manager,
            forall|j: int| 0 <= j < old(self).heaps@.len()
                && (#[trigger] old(self).heaps@[j]).id != old(self).current_heap_id
                ==> final(self).heaps@[j] == old(self).heaps@[j],
            match r {
                Result::Ok(reference) => reference.spec_heap_id() == old(self).current_heap_id
                    && exists|i: int| 0 <= i < final(self).heaps@.len()
                        && (#[trigger] final(self).heaps@[i]).id == old(self).current_heap_id
                        && old(self).heaps@[i].id == old(self).current_heap_id
                        && reference.spec_object_id()
                            == old(self).heaps@[i].next_id % 0x1_0000_0000
                        && final(self).heaps@[i].objects@.len()
                            == old(self).heaps@[i].objects@.len() + 1
                        && final(self).heaps@[i].objects@.drop_last()
                            == old(self).heaps@[i].objects@
                        && final(self).heaps@[i].objects@.last().object == object
                        && final(self).heaps@[i].objects@.last().size == object.spec_size()
                        && final(self).heaps@[i].objects@.last().type_id
                            == object.spec_type_id()
                        && final(self).heaps@[i].objects@.last().id
                            == old(self).heaps@[i].next_id,
                Result::Err(_) => exists|i: int| 0 <= i < old(self).heaps@.len()
                    && (#[trigger] old(self).heaps@[i]).id == old(self).current_heap_id
                    && old(self).heaps@[i].next_id == u64::MAX,
            },
    {
        let heap_id = self.current_heap_id;
        let mut i: usize = 0;
        while i < self.heaps.len()
            invariant
                i <= self.heaps@.len(),
                heap_id == self.current_heap_id,
                *self == *old(self),
                old(self).wf(),
                forall|j: int| 0 <= j < i ==> (#[trigger] self.heaps@[j]).id != heap_id,
            decreases self.heaps@.len() - i,
        {
            if self.heaps[i].id == heap_id {
                let size = object.size();
                let type_id = object.type_id();
                let heap = &mut self.heaps[i];
                let object_id = match heap.allocate_object(object, size, type_id) {
                    Ok(id) => id,
                    Err(e) => {
                        proof {
                            assert forall|a: int, b: int| 0 <= a < b < self.heaps@.len()
                                implies (#[trigger] self.heaps@[a]).id
                                    != (#[trigger] self.heaps@[b]).id by {
                                assert(old(self).heaps@[a].id != old(self).heaps@[b].id);
                            }
                            let w = choose|w: int| 0 <= w < old(self).heaps@.len()
                                && (#[trigger] old(self).heaps@[w]).id == old(self).current_heap_id;
                            assert(self.heaps@[w].id == old(self).current_heap_id);
                            assert(old(self).heaps@[i as int].id == old(self).current_heap_id
                                && old(self).heaps@[i as int].next_id == u64::MAX);
                            assert forall|j: int| 0 <= j < old(self).heaps@.len()
                                && (#[trigger] old(self).heaps@[j]).id
                                    != old(self).current_heap_id
                                implies self.heaps@[j] == old(self).heaps@[j] by {
                                assert(j != i as int);
                            }
                        }
                        return Err(MemoryError::from_heap_error(e));
                    },
                };
                proof {
                    assert forall|a: int, b: int| 0 <= a < b < self.heaps@.len()
                        implies (#[trigger] self.heaps@[a]).id
                            != (#[trigger] self.heaps@[b]).id by {
                        assert(old(self).heaps@[a].id != old(self).heaps@[b].id);
                    }
                    assert(self.heaps@[i as int].id == old(self).current_heap_id);
                    assert(old(self).heaps@[i as int].id == old(self).current_heap_id);
                    assert(self.heaps@[i as int].objects@.drop_last()
                        == old(self).heaps@[i as int].objects@);
                    assert(self.heaps@[i as int].objects@.last().id
                        == old(self).heaps@[i as int].next_id);
                    assert forall|j: int| 0 <= j < old(self).heaps@.len()
                        && (#[trigger] old(self).heaps@[j]).id != old(self).current_heap_id
                        implies self.heaps@[j] == old(self).heaps@[j] by {
                        assert(j != i as int);
                    }
                }
                return Ok(ObjectReference::new(heap_id, object_id));
            }
            i = i + 1;
        }
        let mut msg = "Current heap ".to_owned();
        msg.append(u64_string(heap_id as u64).as_str());
        msg.append(" does not exist");
        proof {
            let w = choose|w: int| 0 <= w < self.heaps@.len()
                && (#[trigger] self.heaps@[w]).id == self.current_heap_id;
            assert(false);
        }
        Err(MemoryError::HeapError(msg))
    }

    /// Dereference through the named heap, checking the stored type id
    /// against the requested one. Fails on a null reference, an unknown
    /// heap, a missing object, and a type mismatch.
    pub fn get_object(&self, reference: ObjectReference, expected_type_id: u32) -> (r: Result<&T, MemoryError>)
        requires
            self.wf(),
        ensures
            match r {
                Result::Ok(o) => self.spec_lookup_ok(reference, expected_type_id)
                    && exists|i: int, k: int| 0 <= i < self.heaps@.len()
                        && self.heaps@[i].id == reference.spec_heap_id()
                        && 0 <= k < self.heaps@[i].objects@.len()
                        && (#[trigger] self.heaps@[i].objects@[k]).id
                            == reference.spec_object_id()
                        && self.heaps@[i].objects@[k].type_id == expected_type_id
                        && o == &self.heaps@[i].objects@[k].object,
                Result::Err(_) => !self.spec_lookup_ok(reference, expected_type_id),
            },
    {
        if reference.is_null() {
            return Err(MemoryError::InvalidReference("Cannot dereference null".to_owned()));
        }
        let heap_id = reference.heap_id();
        let object_id = reference.object_id();
        let mut i: usize = 0;
        while i < self.heaps.len()
            invariant
                i <= self.heaps@.len(),
                self.wf(),
                heap_id == reference.spec_heap_id(),
                object_id == reference.spec_object_id(),
                reference.value != 0,
                forall|j: int| 0 <= j < i ==> (#[trigger] self.heaps@[j]).id != heap_id,
            decreases self.heaps@.len() - i,
        {
            if self.heaps[i].id == heap_id {
                proof { assert(self.spec_has_heap(heap_id)); }
                return match self.heaps[i].get_object(object_id, expected_type_id) {
                    Ok(o) => {
                        proof {
                            let k = choose|k: int| 0 <= k < self.heaps@[i as int].objects@.len()
                                && #[trigger] self.heaps@[i as int].objects@[k].id == object_id
                                && self.heaps@[i as int].objects@[k].type_id == expected_type_id
                                && o == &self.heaps@[i as int].objects@[k].object;
                            assert(self.heaps@[i as int].objects@[k].id
                                == reference.spec_object_id());
                        }
                        Ok(o)
                    },
                    Err(HeapError::TypeMismatch) => {
                        proof { lemma_lookup_pinned(*self, reference, expected_type_id, i as int); }
                        let mut msg = "Type mismatch for object ".to_owned();
                        msg.append(u64_string(object_id).as_str());
                        Err(MemoryError::InvalidReference(msg))
                    },
                    Err(e) => {
                        proof { lemma_lookup_pinned(*self, reference, expected_type_id, i as int); }
                        Err(MemoryError::from_heap_error(e))
                    },
                };
            }
            i = i + 1;
        }
        proof {
            if self.spec_lookup_ok(reference, expected_type_id) {
                let (i2, k2) = choose|i2: int, k2: int| 0 <= i2 < self.heaps@.len()
                    && self.heaps@[i2].id == reference.spec_heap_id()
                    && 0 <= k2 < self.heaps@[i2].objects@.len()
                    && (#[trigger] self.heaps@[i2].objects@[k2]).id == reference.spec_object_id()
                    && self.heaps@[i2].objects@[k2].type_id == expected_type_id;
                assert(false);
            }
        }
        let mut msg = "Heap ".to_owned();
        msg.append(u64_string(heap_id as u64).as_str());
        msg.append(" does not exist");
        Err(MemoryError::InvalidReference(msg))
    }
}


/// When the heap holding the reference's heap id lacks the object id, or
/// holds it under a different type id, no lookup witness exists anywhere:
/// heap ids are distinct across the registry and object ids within a heap.
proof fn lemma_lookup_pinned<T>(
    m: MemoryManager<T>,
    reference: ObjectReference,
    expected_type_id: u32,
    i: int,
)
    requires
        m.wf(),
        0 <= i < m.heaps@.len(),
        m.heaps@[i].id == reference.spec_heap_id(),
        !m.heaps@[i].spec_has_object(reference.spec_object_id())
            || exists|k: int| 0 <= k < m.heaps@[i].objects@.len()
                && (#[trigger] m.heaps@[i].objects@[k]).id == reference.spec_object_id()
                && m.heaps@[i].objects@[k].type_id != expected_type_id,
    ensures
        !m.spec_lookup_ok(reference, expected_type_id),
{
    assert(m.heaps@[i].wf());
    if m.spec_lookup_ok(reference, expected_type_id) {
        let (i2, k2) = choose|i2: int, k2: int| 0 <= i2 < m.heaps@.len()
            && m.heaps@[i2].id == reference.spec_heap_id()
            && 0 <= k2 < m.heaps@[i2].objects@.len()
            && (#[trigger] m.heaps@[i2].objects@[k2]).id == reference.spec_object_id()
            && m.heaps@[i2].objects@[k2].type_id == expected_type_id;
        if i2 != i {
            if i2 < i {
                assert(m.heaps@[i2].id != m.heaps@[i].id);
            } else {
                assert(m.heaps@[i].id != m.heaps@[i2].id);
            }
        }
        assert(i2 == i);
        if !m.heaps@[i].spec_has_object(reference.spec_object_id()) {
            assert(m.heaps@[i].spec_has_object(reference.spec_object_id()));
        } else {
            let k = choose|k: int| 0 <= k < m.heaps@[i].objects@.len()
                && (#[trigger] m.heaps@[i].objects@[k]).id == reference.spec_object_id()
                && m.heaps@[i].objects@[k].type_id != expected_type_id;
            if k != k2 {
                if k < k2 {
                    assert(m.heaps@[i].objects@[k].id < m.heaps@[i].objects@[k2].id);
                } else {
                    assert(m.heaps@[i].objects@[k2].id < m.heaps@[i].objects@[k].id);
                }
            }
            assert(false);
        }
    }
}

} // verus!
