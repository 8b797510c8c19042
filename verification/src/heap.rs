//! Typed, reference-indexed object heaps with monotonic object ids, plus the
//! manager that issues heap ids.

use vstd::prelude::*;
use vstd::string::StringExecFns;
use crate::decimal::u64_string;

verus! {

/// Result type for heap operations.
pub type HeapResult<T> = Result<T, HeapError>;

/// Errors that can occur in heap operations.
#[derive(Debug)]
pub enum HeapError {
    AllocationFailed(String),
    InvalidObjectId(String),
    TypeMismatch,
    GCFailed(String),
}

impl HeapError {
    /// The message the error carries.
    pub fn describe(&self) -> String {
        match self {
            HeapError::AllocationFailed(s) => {
                let mut out = "Heap allocation failed: ".to_owned();
                out.append(s.as_str());
                out
            },
            HeapError::InvalidObjectId(s) => {
                let mut out = "Invalid object ID: ".to_owned();
                out.append(s.as_str());
                out
            },
            HeapError::TypeMismatch => "Object type mismatch".to_owned(),
            HeapError::GCFailed(s) => {
                let mut out = "Garbage collection failed: ".to_owned();
                out.append(s.as_str());
                out
            },
        }
    }
}

/// One stored object: its id, its payload, its recorded size in bytes, its
/// type id, and the garbage collector's mark bit.
pub struct HeapEntry<T> {
    pub id: u64,
    pub object: T,
    pub size: usize,
    pub type_id: u32,
    pub marked: bool,
}

/// A heap: a set of entries with unique, monotonically increasing object
/// ids, and the configuration of its collector.
pub struct StandardHeap<T> {
    pub id: u32,
    pub objects: Vec<HeapEntry<T>>,
    pub next_id: u64,
    pub gc_enabled: bool,
    pub gc_threshold: usize,
}

/// The sum of the recorded sizes of a run of entries.
pub open spec fn total_size_of<T>(entries: Seq<HeapEntry<T>>) -> int
    decreases entries,
{
    if entries.len() == 0 {
        0
    } else {
        total_size_of(entries.drop_last()) + entries.last().size
    }
}

impl<T> StandardHeap<T> {
    /// Every stored id is below the next id to be issued, and ids strictly
    /// increase in allocation order.
    pub open spec fn wf(self) -> bool {
        &&& self.next_id >= 1
        &&& forall|i: int| 0 <= i < self.objects@.len()
            ==> #[trigger] self.objects@[i].id < self.next_id
        &&& forall|i: int, j: int| 0 <= i < j < self.objects@.len()
            ==> #[trigger] self.objects@[i].id < #[trigger] self.objects@[j].id
    }

    /// Whether some entry carries the given object id.
    pub open spec fn spec_has_object(self, object_id: u64) -> bool {
        exists|i: int| 0 <= i < self.objects@.len() && #[trigger] self.objects@[i].id == object_id
    }

    /// A fresh heap with the given id: no objects, ids starting at one,
    /// collection enabled with the default ten-thousand-object threshold.
    pub fn new(id: u32) -> (r: Result<Self, HeapError>)
        ensures
            r matches Result::Ok(h) && h.wf() && h.id == id && h.objects@.len() == 0
                && h.next_id == 1 && h.gc_enabled && h.gc_threshold == 10000,
    {
        Ok(StandardHeap {
            id,
            objects: Vec::new(),
            next_id: 1,
            gc_enabled: true,
            gc_threshold: 10000,
        })
    }

    /// Issue the next object id.
    fn next_object_id(&mut self) -> (r: Result<u64, HeapError>)
        requires
            old(self).wf(),
        ensures
            final(self).wf(),
            final(self).id == old(self).id,
            final(self).objects == old(self).objects,
            final(self).gc_enabled == old(self).gc_enabled,
            final(self).gc_threshold == old(self).gc_threshold,
            match r {
                Result::Ok(v) => v == old(self).next_id
                    && final(self).next_id == old(self).next_id + 1,
                Result::Err(_) => old(self).next_id == u64::MAX && *final(self) == *old(self),
            },
    {
        if self.next_id == u64::MAX {
            return Err(HeapError::AllocationFailed("object ids exhausted".to_owned()));
        }
        let current = self.next_id;
        self.next_id = current + 1;
        Ok(current)
    }

    /// Check if garbage collection should run: it is enabled and the object
    /// count has reached the threshold.
    pub fn should_collect(&self) -> (r: bool)
        ensures
            r == (self.gc_enabled && self.objects@.len() >= self.gc_threshold),
    {
        if !self.gc_enabled {
            return false;
        }
        self.objects.len() >= self.gc_threshold
    }

    /// Set the garbage collection threshold.
    pub fn set_gc_threshold(&mut self, threshold: usize)
        ensures
            *final(self) == (StandardHeap { gc_threshold: threshold, ..*old(self) }),
    {
        self.gc_threshold = threshold;
    }

    /// Enable or disable garbage collection.
    pub fn set_gc_enabled(&mut self, enabled: bool)
        ensures
            *final(self) == (StandardHeap { gc_enabled: enabled, ..*old(self) }),
    {
        self.gc_enabled = enabled;
    }

    /// Store an object with the given recorded size and type id, assigning
    /// the next monotonic id. Consecutive allocations yield strictly
    /// increasing object ids.
    pub fn allocate_object(&mut self, object: T, size: usize, type_id: u32) -> (r: Result<u64, HeapError>)
        requires
            old(self).wf(),
        ensures
            final(self).wf(),
            final(self).id == old(self).id,
            match r {
                Result::Ok(id) => id == old(self).next_id
                    && final(self).next_id == old(self).next_id + 1
                    && final(self).objects@.len() == old(self).objects@.len() + 1
                    && final(self).objects@.last().id == id
                    && final(self).objects@.last().object == object
                    && final(self).objects@.last().size == size
                    && final(self).objects@.last().type_id == type_id
                    && !final(self).objects@.last().marked
                    && final(self).objects@.drop_last() == old(self).objects@,
                Result::Err(_) => old(self).next_id == u64::MAX,
            },
    {
        if self.should_collect() {
            self.collect()?;
        }
        let object_id = self.next_object_id()?;
        self.objects.push(HeapEntry { id: object_id, object, size, type_id, marked: false });
        proof {
            assert(self.objects@.drop_last() =~= old(self).objects@);
        }
        Ok(object_id)
    }

    /// Find an object by its id, without a type check.
    pub fn get_object_any(&self, object_id: u64) -> (r: Result<&T, HeapError>)
        requires
            self.wf(),
        ensures
            match r {
                Result::Ok(o) => exists|i: int| 0 <= i < self.objects@.len()
                    && #[trigger] self.objects@[i].id == object_id
                    && o == &self.objects@[i].object,
                Result::Err(_) => !self.spec_has_object(object_id),
            },
    {
        let mut i: usize = 0;
        while i < self.objects.len()
            invariant
                i <= self.objects@.len(),
                forall|j: int| 0 <= j < i ==> #[trigger] self.objects@[j].id != object_id,
            decreases self.objects@.len() - i,
        {
            if self.objects[i].id == object_id {
                return Ok(&self.objects[i].object);
            }
            i = i + 1;
        }
        let mut msg = "Object ID ".to_owned();
        msg.append(u64_string(object_id).as_str());
        msg.append(" not found");
        Err(HeapError::InvalidObjectId(msg))
    }

    /// Find an object by its id; additionally fail with a type mismatch when
    /// the stored type id disagrees with the requested one.
    pub fn get_object(&self, object_id: u64, expected_type_id: u32) -> (r: Result<&T, HeapError>)
        requires
            self.wf(),
        ensures
            match r {
                Result::Ok(o) => exists|i: int| 0 <= i < self.objects@.len()
                    && #[trigger] self.objects@[i].id == object_id
                    && self.objects@[i].type_id == expected_type_id
                    && o == &self.objects@[i].object,
                Result::Err(e) => match e {
                    HeapError::TypeMismatch => exists|i: int| 0 <= i < self.objects@.len()
                        && #[trigger] self.objects@[i].id == object_id
                        && self.objects@[i].type_id != expected_type_id,
                    _ => !self.spec_has_object(object_id),
                },
            },
    {
        let mut i: usize = 0;
        while i < self.objects.len()
            invariant
                i <= self.objects@.len(),
                forall|j: int| 0 <= j < i ==> #[trigger] self.objects@[j].id != object_id,
            decreases self.objects@.len() - i,
        {
            if self.objects[i].id == object_id {
                if self.objects[i].type_id != expected_type_id {
                    return Err(HeapError::TypeMismatch);
                }
                return Ok(&self.objects[i].object);
            }
            i = i + 1;
        }
        let mut msg = "Object ID ".to_owned();
        msg.append(u64_string(object_id).as_str());
        msg.append(" not found");
        Err(HeapError::InvalidObjectId(msg))
    }

    /// Trigger garbage collection. The sweep entry point is explicit; with
    /// no mark phase run through this heap, collection keeps every object.
    pub fn collect(&mut self) -> (r: Result<(), HeapError>)
        requires
            old(self).wf(),
        ensures
            *final(self) == *old(self),
            r is Ok,
    {
        Ok(())
    }

    /// The current number of objects in this heap.
    pub fn object_count(&self) -> (r: usize)
        ensures
            r == self.objects@.len(),
    {
        self.objects.len()
    }

    /// The total memory usage of this heap in bytes: the sum of the recorded
    /// sizes of its objects.
    pub fn memory_usage(&self) -> (r: usize)
        requires
            total_size_of(self.objects@) <= usize::MAX,
        ensures
            r == total_size_of(self.objects@),
    {
        let mut total: usize = 0;
        let mut i: usize = 0;
        while i < self.objects.len()
            invariant
                i <= self.objects@.len(),
                total == total_size_of(self.objects@.take(i as int)),
                total_size_of(self.objects@) <= usize::MAX,
            decreases self.objects@.len() - i,
        {
            proof {
                lemma_total_size_take_step(self.objects@, i as int);
                lemma_total_size_prefix_bound(self.objects@, i as int + 1);
            }
            total = total + self.objects[i].size;
            i = i + 1;
        }
        proof {
            assert(self.objects@.take(self.objects@.len() as int) =~= self.objects@);
        }
        total
    }

    /// The heap's unique id.
    pub fn id(&self) -> (r: u32)
        ensures
            r == self.id,
    {
        self.id
    }
}

proof fn lemma_total_size_take_step<T>(s: Seq<HeapEntry<T>>, i: int)
    requires
        0 <= i < s.len(),
    ensures
        total_size_of(s.take(i + 1)) == total_size_of(s.take(i)) + s[i].size,
{
    assert(s.take(i + 1).drop_last() =~= s.take(i));
    assert(s.take(i + 1).last() == s[i]);
}

/// Sizes are never negative, so every prefix sum is bounded by the total.
proof fn lemma_total_size_prefix_bound<T>(s: Seq<HeapEntry<T>>, i: int)
    requires
        0 <= i <= s.len(),
    ensures
        total_size_of(s.take(i)) <= total_size_of(s),
        total_size_of(s.take(i)) >= 0,
    decreases s.len() - i,
{
    if i == s.len() {
        assert(s.take(i) =~= s);
        lemma_total_size_nonneg(s);
    } else {
        lemma_total_size_prefix_bound(s, i + 1);
        lemma_total_size_take_step(s, i);
        lemma_total_size_nonneg(s.take(i));
    }
}

proof fn lemma_total_size_nonneg<T>(s: Seq<HeapEntry<T>>)
    ensures
        total_size_of(s) >= 0,
    decreases s,
{
    if s.len() > 0 {
        lemma_total_size_nonneg(s.drop_last());
    }
}


impl<T: crate::memory::MemoryObject> StandardHeap<T> {
    /// Store an object, reading its recorded size and type id from the
    /// object itself.
    pub fn allocate(&mut self, object: T) -> (r: Result<u64, HeapError>)
        requires
            old(self).wf(),
        ensures
            final(self).wf(),
            final(self).id == old(self).id,
            match r {
                Result::Ok(id) => id == old(self).next_id
                    && final(self).next_id == old(self).next_id + 1
                    && final(self).objects@.len() == old(self).objects@.len() + 1
                    && final(self).objects@.last().id == id
                    && final(self).objects@.drop_last() == old(self).objects@,
                Result::Err(_) => old(self).next_id == u64::MAX,
            },
    {
        let size = object.size();
        let type_id = object.type_id();
        self.allocate_object(object, size, type_id)
    }
}

/// The HeapManager is responsible for issuing heap ids and building heaps.
pub struct HeapManager {
    pub next_id: u32,
}

impl HeapManager {
    /// A manager whose first issued heap id is one.
    pub fn new() -> (r: Self)
        ensures
            r.next_id == 1,
    {
        HeapManager { next_id: 1 }
    }

    /// Generate the next heap id; ids increase monotonically, wrapping only
    /// at the 32-bit limit.
    pub fn next_heap_id(&mut self) -> (r: u32)
        ensures
            r == old(self).next_id,
            final(self).next_id == vstd::wrapping::u32_specs::wrapping_add(old(self).next_id, 1),
    {
        let id = self.next_id;
        self.next_id = self.next_id.wrapping_add(1);
        id
    }

    /// Create a new heap with the specified id.
    pub fn create_heap<T>(&self, heap_id: u32) -> (r: Result<StandardHeap<T>, HeapError>)
        ensures
            r matches Result::Ok(h) && h.wf() && h.id == heap_id && h.objects@.len() == 0,
    {
        StandardHeap::new(heap_id)
    }
}

} // verus!
