//! Packed object references: a 64-bit value whose high 32 bits are a heap id
//! and whose low 32 bits are an object id. Zero in both halves is the
//! canonical null reference.

use vstd::prelude::*;
use vstd::string::StringExecFns;

verus! {

/// Object reference that uniquely identifies an object in any heap.
#[derive(Clone, Copy, PartialEq, Eq, Structural, Hash, Debug)]
pub struct ObjectReference {
    pub value: u64,
}

/// The packed 64-bit value for a heap id and a (already truncated) object id.
pub open spec fn spec_pack(h: u32, low: u64) -> u64
    recommends
        low < 0x1_0000_0000,
{
    ((h as u64) * 0x1_0000_0000 + low) as u64
}

impl ObjectReference {
    /// The heap id half, as a spec-level number.
    pub open spec fn spec_heap_id(self) -> u32 {
        (self.value / 0x1_0000_0000) as u32
    }

    /// The object id half, as a spec-level number.
    pub open spec fn spec_object_id(self) -> u64 {
        self.value % 0x1_0000_0000
    }

    /// Create a new object reference with the given heap id and object id;
    /// the object id is truncated to its low 32 bits.
    pub fn new(heap_id: u32, object_id: u64) -> (r: ObjectReference)
        ensures
            r.value == spec_pack(heap_id, object_id % 0x1_0000_0000),
            r.spec_heap_id() == heap_id,
            r.spec_object_id() == object_id % 0x1_0000_0000,
    {
        let h: u64 = heap_id as u64;
        let low: u64 = object_id & 0x0000_0000_FFFF_FFFF;
        let value: u64 = (h << 32u64) | low;
        proof {
            assert((h << 32u64) | (object_id & 0x0000_0000_FFFF_FFFF)
                == h * 0x1_0000_0000 + (object_id % 0x1_0000_0000)) by (bit_vector)
                requires h <= 0xFFFF_FFFFu64;
            lemma_pack_unpack(heap_id, object_id % 0x1_0000_0000);
        }
        ObjectReference { value }
    }

    /// Get the heap id from this reference.
    pub fn heap_id(&self) -> (r: u32)
        ensures
            r == self.spec_heap_id(),
    {
        let v: u64 = self.value;
        proof {
            assert((v >> 32u64) == v / 0x1_0000_0000 && v / 0x1_0000_0000 <= 0xFFFF_FFFFu64)
                by (bit_vector);
        }
        (v >> 32u64) as u32
    }

    /// Get the object id within the heap.
    pub fn object_id(&self) -> (r: u64)
        ensures
            r == self.spec_object_id(),
    {
        let v: u64 = self.value;
        proof {
            assert((v & 0x0000_0000_FFFF_FFFF) == v % 0x1_0000_0000) by (bit_vector);
        }
        v & 0x0000_0000_FFFF_FFFF
    }

    /// Create a null reference.
    pub fn null() -> (r: ObjectReference)
        ensures
            r.value == 0,
    {
        ObjectReference { value: 0 }
    }

    /// Check if this is a null reference.
    pub fn is_null(&self) -> (r: bool)
        ensures
            r == (self.value == 0),
    {
        self.value == 0
    }

    /// The rendering `describe` builds: `null`, or `Object@heap:id`.
    pub open spec fn spec_describe(self) -> Seq<char> {
        if self.value == 0 {
            "null"@
        } else {
            "Object@"@ + crate::decimal::u64_digits_of(self.spec_heap_id() as u64) + ":"@
                + crate::decimal::u64_digits_of(self.spec_object_id())
        }
    }

    /// The rendering `describe_debug` builds: `ObjectRef(null)`, or
    /// `ObjectRef(heap=H, id=I)`.
    pub open spec fn spec_describe_debug(self) -> Seq<char> {
        if self.value == 0 {
            "ObjectRef(null)"@
        } else {
            "ObjectRef(heap="@ + crate::decimal::u64_digits_of(self.spec_heap_id() as u64)
                + ", id="@ + crate::decimal::u64_digits_of(self.spec_object_id()) + ")"@
        }
    }

    /// A string rendering of the reference, null references included.
    pub fn describe(&self) -> (r: String)
        ensures
            r@ == self.spec_describe(),
    {
        if self.is_null() {
            "null".to_owned()
        } else {
            let mut s = "Object@".to_owned();
            s.append(crate::decimal::u64_string(self.heap_id() as u64).as_str());
            s.append(":");
            s.append(crate::decimal::u64_string(self.object_id()).as_str());
            s
        }
    }

    /// A debugging rendering of the reference, null references included.
    pub fn describe_debug(&self) -> (r: String)
        ensures
            r@ == self.spec_describe_debug(),
    {
        if self.is_null() {
            "ObjectRef(null)".to_owned()
        } else {
            let mut s = "ObjectRef(heap=".to_owned();
            s.append(crate::decimal::u64_string(self.heap_id() as u64).as_str());
            s.append(", id=");
            s.append(crate::decimal::u64_string(self.object_id()).as_str());
            s.append(")");
            s
        }
    }
}

proof fn lemma_pack_unpack(h: u32, low: u64)
    requires
        low < 0x1_0000_0000,
    ensures
        ((h as u64) * 0x1_0000_0000 + low) / 0x1_0000_0000 == h,
        ((h as u64) * 0x1_0000_0000 + low) % 0x1_0000_0000 == low,
        h != 0 || low != 0 ==> (h as u64) * 0x1_0000_0000 + low != 0,
{
    let v: u64 = ((h as u64) * 0x1_0000_0000 + low) as u64;
    assert(v / 0x1_0000_0000 == h && v % 0x1_0000_0000 == low && (h != 0 || low != 0 ==> v != 0))
        by (nonlinear_arith)
        requires v == (h as u64) * 0x1_0000_0000 + low, low < 0x1_0000_0000, h <= 0xFFFF_FFFFu64;
}

/// A reference packed from `(h, i)` is null exactly when both `h` and the
/// kept low 32 bits of `i` are zero, and unpacking recovers `h` and
/// `i % 2^32` exactly.
pub proof fn lemma_reference_round_trip(h: u32, i: u64)
    ensures
        (spec_pack(h, i % 0x1_0000_0000) != 0) <==> (h != 0 || i % 0x1_0000_0000 != 0),
        (ObjectReference { value: spec_pack(h, i % 0x1_0000_0000) }).spec_heap_id() == h,
        (ObjectReference { value: spec_pack(h, i % 0x1_0000_0000) }).spec_object_id() == i % 0x1_0000_0000,
{
    lemma_pack_unpack(h, i % 0x1_0000_0000);
}

} // verus!
