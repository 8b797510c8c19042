use loaf::heap::{HeapError, HeapManager, HeapResult, StandardHeap};
use loaf::memory::MemoryObject;

// Test struct implementing MemoryObject for heap tests
#[derive(Debug, Clone, PartialEq)]
struct TestMemoryObject {
    data: String,
    object_size: usize,
    object_type_id: u32,
}

impl TestMemoryObject {
    fn new(data: String, type_id: u32) -> Self {
        let size = data.len() + std::mem::size_of::<String>() + 8;
        Self {
            data,
            object_size: size,
            object_type_id: type_id,
        }
    }
}

impl MemoryObject for TestMemoryObject {
    fn size(&self) -> usize {
        self.object_size
    }

    fn type_id(&self) -> u32 {
        self.object_type_id
    }
}

// Another test struct for type testing
#[derive(Debug, Clone, PartialEq)]
struct NumberObject {
    value: i64,
}

impl MemoryObject for NumberObject {
    fn size(&self) -> usize {
        std::mem::size_of::<i64>()
    }

    fn type_id(&self) -> u32 {
        2
    }
}

/// A payload that can carry either test object through one heap.
#[derive(Debug, Clone, PartialEq)]
enum TestPayload {
    Text(TestMemoryObject),
    Num(NumberObject),
}

impl MemoryObject for TestPayload {
    fn size(&self) -> usize {
        match self {
            TestPayload::Text(o) => o.size(),
            TestPayload::Num(o) => o.size(),
        }
    }

    fn type_id(&self) -> u32 {
        match self {
            TestPayload::Text(o) => o.type_id(),
            TestPayload::Num(o) => o.type_id(),
        }
    }
}

#[test]
fn test_heap_error_display() {
    let allocation_error = HeapError::AllocationFailed("Out of memory".to_string());
    let invalid_id_error = HeapError::InvalidObjectId("ID 123 not found".to_string());
    let type_mismatch_error = HeapError::TypeMismatch;
    let gc_error = HeapError::GCFailed("Mark phase failed".to_string());

    assert_eq!(allocation_error.describe(), "Heap allocation failed: Out of memory");
    assert_eq!(invalid_id_error.describe(), "Invalid object ID: ID 123 not found");
    assert_eq!(type_mismatch_error.describe(), "Object type mismatch");
    assert_eq!(gc_error.describe(), "Garbage collection failed: Mark phase failed");
}

#[test]
fn test_heap_trait_basic_operations() {
    let mut heap: StandardHeap<TestMemoryObject> = StandardHeap::new(1).unwrap();

    // Test basic heap properties
    assert_eq!(heap.id(), 1);
    assert_eq!(heap.object_count(), 0);
    assert_eq!(heap.memory_usage(), 0);

    // Test GC operation (should not fail even if not implemented)
    assert!(heap.collect().is_ok());
}

#[test]
fn test_heap_trait_object_allocation() {
    let mut heap: StandardHeap<TestMemoryObject> = StandardHeap::new(2).unwrap();
    let test_obj = TestMemoryObject::new("Heap trait test".to_string(), 1);
    let size = MemoryObject::size(&test_obj);

    // Allocate using the low-level method
    let object_id = heap
        .allocate_object(test_obj.clone(), size, MemoryObject::type_id(&test_obj))
        .unwrap();

    assert_eq!(object_id, 1);
    assert_eq!(heap.object_count(), 1);
    assert_eq!(heap.memory_usage(), size);

    // Retrieve using the low-level method
    let retrieved = heap.get_object_any(object_id).unwrap();
    assert_eq!(*retrieved, test_obj);
}

#[test]
fn test_heap_ext_trait_typed_operations() {
    let mut heap: StandardHeap<TestMemoryObject> = StandardHeap::new(3).unwrap();
    let test_obj = TestMemoryObject::new("HeapExt test".to_string(), 2);

    // Use the high-level methods
    let object_id = heap.allocate(test_obj.clone()).unwrap();
    let retrieved = heap.get_object(object_id, 2).unwrap();

    assert_eq!(*retrieved, test_obj);
    assert_eq!(heap.object_count(), 1);
}

#[test]
fn test_heap_ext_trait_type_safety() {
    let mut heap: StandardHeap<TestMemoryObject> = StandardHeap::new(4).unwrap();
    let test_obj = TestMemoryObject::new("Type safety test".to_string(), 1);

    let object_id = heap.allocate(test_obj).unwrap();

    // Try to retrieve with a different type id - should fail with TypeMismatch
    let wrong_type_result = heap.get_object(object_id, 99);
    assert!(wrong_type_result.is_err());

    match wrong_type_result.unwrap_err() {
        HeapError::TypeMismatch => {},
        _ => panic!("Expected TypeMismatch error"),
    }
}

#[test]
fn test_heap_as_trait_object() {
    let mut heap: StandardHeap<TestMemoryObject> = StandardHeap::new(5).unwrap();

    assert_eq!(heap.id(), 5);
    assert_eq!(heap.object_count(), 0);
    assert_eq!(heap.memory_usage(), 0);

    let test_obj = TestMemoryObject::new("Trait object test".to_string(), 1);
    let size = MemoryObject::size(&test_obj);
    let type_id = MemoryObject::type_id(&test_obj);

    let object_id = heap.allocate_object(test_obj.clone(), size, type_id).unwrap();
    assert_eq!(object_id, 1);
    assert_eq!(heap.object_count(), 1);

    let retrieved = heap.get_object_any(object_id).unwrap();
    assert_eq!(*retrieved, test_obj);
}

#[test]
fn test_heap_ext_with_trait_object() {
    let mut heap: StandardHeap<TestMemoryObject> = StandardHeap::new(6).unwrap();

    let test_obj = TestMemoryObject::new("HeapExt with trait object".to_string(), 1);

    let object_id = heap.allocate(test_obj.clone()).unwrap();
    let retrieved = heap.get_object(object_id, 1).unwrap();

    assert_eq!(*retrieved, test_obj);
}

#[test]
fn test_multiple_heap_types_compatibility() {
    // Test that different heap instances work independently
    let mut heap1: StandardHeap<TestMemoryObject> = StandardHeap::new(1).unwrap();
    let mut heap2: StandardHeap<TestMemoryObject> = StandardHeap::new(2).unwrap();

    let obj1 = TestMemoryObject::new("Heap 1 object".to_string(), 1);
    let obj2 = TestMemoryObject::new("Heap 2 object".to_string(), 1);

    // Each heap should work independently
    let id1 = heap1.allocate(obj1.clone()).unwrap();
    let id2 = heap2.allocate(obj2.clone()).unwrap();

    assert_eq!(heap1.id(), 1);
    assert_eq!(heap2.id(), 2);
    assert_eq!(heap1.object_count(), 1);
    assert_eq!(heap2.object_count(), 1);

    let retrieved1 = heap1.get_object(id1, 1).unwrap();
    assert_eq!(*retrieved1, obj1);
    let retrieved2 = heap2.get_object(id2, 1).unwrap();
    assert_eq!(*retrieved2, obj2);
}

#[test]
fn test_heap_result_type() {
    // Test that HeapResult works correctly
    let success: HeapResult<u64> = Ok(42);
    let error: HeapResult<u64> = Err(HeapError::AllocationFailed("Test error".to_string()));

    assert!(success.is_ok());
    assert_eq!(success.unwrap(), 42);

    assert!(error.is_err());
    match error.unwrap_err() {
        HeapError::AllocationFailed(msg) => assert_eq!(msg, "Test error"),
        _ => panic!("Expected AllocationFailed error"),
    }
}

#[test]
fn test_heap_error_debug_format() {
    let error = HeapError::TypeMismatch;
    let debug_string = format!("{:?}", error);
    assert_eq!(debug_string, "TypeMismatch");

    let error2 = HeapError::InvalidObjectId("test".to_string());
    let debug_string2 = format!("{:?}", error2);
    assert!(debug_string2.contains("InvalidObjectId"));
    assert!(debug_string2.contains("test"));
}

#[test]
fn test_standard_heap_creation() {
    let heap_id = 42;
    let heap: StandardHeap<TestMemoryObject> = StandardHeap::new(heap_id).unwrap();

    assert_eq!(heap.id(), heap_id);
    assert_eq!(heap.object_count(), 0);
    assert_eq!(heap.memory_usage(), 0);
}

#[test]
fn test_standard_heap_allocate_object() {
    let mut heap: StandardHeap<TestMemoryObject> = StandardHeap::new(1).unwrap();
    let test_obj = TestMemoryObject::new("Hello, World!".to_string(), 1);
    let expected_size = test_obj.size();

    let object_id = heap.allocate(test_obj.clone()).unwrap();

    assert_eq!(object_id, 1); // First object should get ID 1
    assert_eq!(heap.object_count(), 1);
    assert_eq!(heap.memory_usage(), expected_size);
}

#[test]
fn test_standard_heap_get_object() {
    let mut heap: StandardHeap<TestMemoryObject> = StandardHeap::new(1).unwrap();
    let test_obj = TestMemoryObject::new("Test Data".to_string(), 1);

    let object_id = heap.allocate(test_obj.clone()).unwrap();
    let retrieved_obj = heap.get_object(object_id, 1).unwrap();

    assert_eq!(*retrieved_obj, test_obj);
}

#[test]
fn test_standard_heap_multiple_objects() {
    let mut heap: StandardHeap<TestPayload> = StandardHeap::new(1).unwrap();

    let obj1 = TestPayload::Text(TestMemoryObject::new("Object 1".to_string(), 1));
    let obj2 = TestPayload::Text(TestMemoryObject::new("Object 2".to_string(), 1));
    let obj3 = TestPayload::Num(NumberObject { value: 42 });

    let id1 = heap.allocate(obj1.clone()).unwrap();
    let id2 = heap.allocate(obj2.clone()).unwrap();
    let id3 = heap.allocate(obj3.clone()).unwrap();

    assert_eq!(id1, 1);
    assert_eq!(id2, 2);
    assert_eq!(id3, 3);
    assert_eq!(heap.object_count(), 3);

    // Verify we can retrieve all objects
    let retrieved1 = heap.get_object(id1, 1).unwrap();
    assert_eq!(*retrieved1, obj1);
    let retrieved2 = heap.get_object(id2, 1).unwrap();
    assert_eq!(*retrieved2, obj2);
    let retrieved3 = heap.get_object(id3, 2).unwrap();
    assert_eq!(*retrieved3, obj3);
}

#[test]
fn test_standard_heap_invalid_object_id() {
    let heap: StandardHeap<TestMemoryObject> = StandardHeap::new(1).unwrap();

    let result = heap.get_object(999, 1);
    assert!(result.is_err());

    match result.unwrap_err() {
        HeapError::InvalidObjectId(msg) => {
            assert!(msg.contains("Object ID 999 not found"));
        },
        _ => panic!("Expected InvalidObjectId error"),
    }
}

#[test]
fn test_standard_heap_type_mismatch() {
    let mut heap: StandardHeap<TestPayload> = StandardHeap::new(1).unwrap();
    let test_obj = TestPayload::Text(TestMemoryObject::new("Test".to_string(), 1));

    let object_id = heap.allocate(test_obj).unwrap();

    // Try to retrieve as wrong type
    let result = heap.get_object(object_id, 2);
    assert!(result.is_err());

    match result.unwrap_err() {
        HeapError::TypeMismatch => {},
        _ => panic!("Expected TypeMismatch error"),
    }
}

#[test]
fn test_standard_heap_memory_usage_calculation() {
    let mut heap: StandardHeap<TestPayload> = StandardHeap::new(1).unwrap();

    let obj1 = TestPayload::Text(TestMemoryObject::new("Short".to_string(), 1));
    let obj2 = TestPayload::Text(TestMemoryObject::new(
        "A much longer string for testing".to_string(), 1));
    let obj3 = TestPayload::Num(NumberObject { value: 123 });

    let expected_total = obj1.size() + obj2.size() + obj3.size();

    heap.allocate(obj1).unwrap();
    heap.allocate(obj2).unwrap();
    heap.allocate(obj3).unwrap();

    assert_eq!(heap.memory_usage(), expected_total);
}

#[test]
fn test_standard_heap_collect_garbage() {
    let mut heap: StandardHeap<TestMemoryObject> = StandardHeap::new(1).unwrap();

    // Add some objects
    let obj1 = TestMemoryObject::new("Object 1".to_string(), 1);
    let obj2 = TestMemoryObject::new("Object 2".to_string(), 1);

    heap.allocate(obj1).unwrap();
    heap.allocate(obj2).unwrap();

    assert_eq!(heap.object_count(), 2);

    // Trigger garbage collection (currently a no-op)
    let result = heap.collect();
    assert!(result.is_ok());

    // Objects should still be there since the sweep keeps everything
    assert_eq!(heap.object_count(), 2);
}

#[test]
fn test_standard_heap_gc_configuration() {
    let mut heap: StandardHeap<TestMemoryObject> = StandardHeap::new(1).unwrap();

    // Test setting GC threshold
    heap.set_gc_threshold(100);
    heap.set_gc_enabled(false);

    // With GC disabled, should_collect should return false
    assert!(!heap.should_collect());

    // Enable GC
    heap.set_gc_enabled(true);

    // Add objects up to threshold
    for i in 0..101 {
        let obj = TestMemoryObject::new(format!("Object {}", i), 1);
        heap.allocate(obj).unwrap();
    }

    // Should trigger GC at threshold
    assert!(heap.should_collect());
}

#[test]
fn test_standard_heap_get_object_any() {
    let mut heap: StandardHeap<TestMemoryObject> = StandardHeap::new(1).unwrap();
    let test_obj = TestMemoryObject::new("Any test".to_string(), 1);

    let object_id = heap.allocate(test_obj.clone()).unwrap();
    let retrieved = heap.get_object_any(object_id).unwrap();

    assert_eq!(*retrieved, test_obj);
}

#[test]
fn test_standard_heap_next_object_id_sequence() {
    let mut heap: StandardHeap<TestMemoryObject> = StandardHeap::new(1).unwrap();

    // Allocate several objects and verify ID sequence
    let obj = TestMemoryObject::new("Test".to_string(), 1);

    let id1 = heap.allocate(obj.clone()).unwrap();
    let id2 = heap.allocate(obj.clone()).unwrap();
    let id3 = heap.allocate(obj.clone()).unwrap();

    assert_eq!(id1, 1);
    assert_eq!(id2, 2);
    assert_eq!(id3, 3);
}

#[test]
fn test_standard_heap_empty_string_object() {
    let mut heap: StandardHeap<TestMemoryObject> = StandardHeap::new(1).unwrap();
    let empty_obj = TestMemoryObject::new("".to_string(), 1);

    let object_id = heap.allocate(empty_obj.clone()).unwrap();
    let retrieved = heap.get_object(object_id, 1).unwrap();

    assert_eq!(*retrieved, empty_obj);
    assert_eq!(retrieved.data, "");
}

#[test]
fn test_standard_heap_large_object() {
    let mut heap: StandardHeap<TestMemoryObject> = StandardHeap::new(1).unwrap();
    let large_string = "x".repeat(10000);
    let large_obj = TestMemoryObject::new(large_string.clone(), 1);
    let expected_size = large_obj.size();

    let object_id = heap.allocate(large_obj.clone()).unwrap();
    let retrieved = heap.get_object(object_id, 1).unwrap();

    assert_eq!(*retrieved, large_obj);
    assert_eq!(heap.memory_usage(), expected_size);
    assert!(heap.memory_usage() > 10000); // Should be at least the string size
}

#[test]
fn test_heap_manager_creation() {
    let mut manager = HeapManager::new();
    // The manager should start with next_id of 1
    assert_eq!(manager.next_heap_id(), 1);
    assert_eq!(manager.next_heap_id(), 2);
    assert_eq!(manager.next_heap_id(), 3);
}

#[test]
fn test_heap_manager_create_heap() {
    let manager = HeapManager::new();
    let heap_id = 42;

    let result: Result<StandardHeap<TestMemoryObject>, HeapError> = manager.create_heap(heap_id);
    assert!(result.is_ok());

    let heap = result.unwrap();
    assert_eq!(heap.id(), heap_id);
    assert_eq!(heap.object_count(), 0);
    assert_eq!(heap.memory_usage(), 0);
}

#[test]
fn test_heap_manager_multiple_heaps() {
    let manager = HeapManager::new();

    let heap1: StandardHeap<TestMemoryObject> = manager.create_heap(1).unwrap();
    let heap2: StandardHeap<TestMemoryObject> = manager.create_heap(2).unwrap();
    let heap3: StandardHeap<TestMemoryObject> = manager.create_heap(3).unwrap();

    assert_eq!(heap1.id(), 1);
    assert_eq!(heap2.id(), 2);
    assert_eq!(heap3.id(), 3);

    // Each heap should be independent
    assert_eq!(heap1.object_count(), 0);
    assert_eq!(heap2.object_count(), 0);
    assert_eq!(heap3.object_count(), 0);
}
