#![allow(non_snake_case)]

use dynamic::{
    DeclError, DynamicObjectBase, Hierarchy, IsSameClass, Object, isSubclassOf, offsetOf, subclass,
};

// Class { value: u32, foo: u32 } and Derived { field: u32, parent: Class },
// with `parent` at byte 4 of Derived.
fn class_and_derived() -> (Hierarchy, usize, usize) {
    let mut h = Hierarchy::new();
    let class = subclass(&mut h, DynamicObjectBase::id(), None, 8).unwrap();
    let derived = subclass(&mut h, class, Some(4), 12).unwrap();
    (h, class, derived)
}

fn derived_bytes(field: u32, value: u32, foo: u32) -> Vec<u8> {
    let mut bytes = Vec::new();
    bytes.extend_from_slice(&field.to_le_bytes());
    bytes.extend_from_slice(&value.to_le_bytes());
    bytes.extend_from_slice(&foo.to_le_bytes());
    bytes
}

#[test]
fn isa() {
    let (h, _class, derived) = class_and_derived();
    let object = Object::new(&h, derived, derived_bytes(0, 0, 0));
    assert!(object.isa(&h, DynamicObjectBase::id()));
}

#[test]
fn casting() {
    let (h, class, derived) = class_and_derived();
    let object = Object::new(&h, derived, derived_bytes(2153746, 548389, 72840548));
    assert!(object.read_u32(&h, 0) == 2153746);
    assert!(object.read_u32(&h, 4) == 548389);
    assert!(object.read_u32(&h, 8) == 72840548);

    let object = object.cast(&h, class);
    println!("Parent offset: {}", object.offset());
    println!("After cast: {}", object.read_u32(&h, 0));
    assert!(object.read_u32(&h, 0) == 548389);
    assert!(object.read_u32(&h, 4) == 72840548);

    let object = object.cast(&h, derived);
    assert!(object.read_u32(&h, 0) == 2153746);
    assert!(object.read_u32(&h, 4) == 548389);
    assert!(object.read_u32(&h, 8) == 72840548);
}

#[test]
fn isSameClass() {
    let mut h = Hierarchy::new();
    let my_class = subclass(&mut h, DynamicObjectBase::id(), None, 0).unwrap();
    let base = DynamicObjectBase::id();
    assert!(IsSameClass { a: base, b: base }.value());
    assert!(!IsSameClass { a: my_class, b: base }.value());
    assert!(IsSameClass { a: my_class, b: my_class }.value());
}

#[test]
fn subclassOf() {
    let mut h = Hierarchy::new();
    let my_class = subclass(&mut h, DynamicObjectBase::id(), None, 0).unwrap();
    assert!(isSubclassOf(&h, my_class, DynamicObjectBase::id()));
}

#[test]
fn offsetof() {
    // A { value: u32, value2: B } with B embedded at byte 4.
    let mut h = Hierarchy::new();
    let b = subclass(&mut h, DynamicObjectBase::id(), None, 4).unwrap();
    let a = subclass(&mut h, b, Some(4), 8).unwrap();
    assert!(offsetOf(&h, b, a) == 4);
}

#[test]
fn offset_sums_over_nesting_depth() {
    let mut h = Hierarchy::new();
    let base = DynamicObjectBase::id();
    let a = subclass(&mut h, base, None, 4).unwrap();
    let b = subclass(&mut h, a, Some(8), 12).unwrap();
    let d = subclass(&mut h, b, Some(16), 28).unwrap();
    assert_eq!(offsetOf(&h, d, d), 0);
    assert_eq!(offsetOf(&h, b, d), 16);
    assert_eq!(offsetOf(&h, a, d), 24);
    assert_eq!(offsetOf(&h, base, d), 24);
    assert_eq!(offsetOf(&h, a, b), 8);
}

#[test]
fn isa_is_reflexive_and_transitive() {
    let mut h = Hierarchy::new();
    let base = DynamicObjectBase::id();
    let a = subclass(&mut h, base, None, 4).unwrap();
    let b = subclass(&mut h, a, Some(0), 8).unwrap();
    let d = subclass(&mut h, b, Some(4), 12).unwrap();
    let object = Object::new(&h, d, vec![0u8; 12]);
    assert!(object.isa(&h, d));
    assert!(object.isa(&h, b));
    assert!(object.isa(&h, a));
    assert!(object.isa(&h, base));
    let object = Object::new(&h, b, vec![0u8; 8]);
    assert!(!object.isa(&h, d));
}

#[test]
fn try_cast_to_unrelated_class_is_none() {
    let (mut h, class, derived) = class_and_derived();
    let unrelated = subclass(&mut h, class, Some(0), 8).unwrap();
    let object = Object::new(&h, derived, derived_bytes(1, 2, 3));
    assert!(!object.isa(&h, unrelated));
    assert!(object.try_cast(&h, unrelated).is_none());
}

#[test]
fn try_cast_down_to_sibling_of_concrete_is_none() {
    let (mut h, class, derived) = class_and_derived();
    let sibling = subclass(&mut h, class, Some(0), 8).unwrap();
    let object = Object::new(&h, derived, derived_bytes(1, 2, 3)).cast(&h, class);
    assert!(object.try_cast(&h, sibling).is_none());
}

#[test]
fn try_cast_round_trip() {
    let (h, class, derived) = class_and_derived();
    let object = Object::new(&h, derived, derived_bytes(7, 8, 9));
    let up = object.try_cast(&h, class).unwrap();
    assert_eq!(up.offset(), 4);
    assert_eq!(up.class(), class);
    assert_eq!(up.read_u32(&h, 0), 8);
    let down = up.try_cast(&h, derived).unwrap();
    assert_eq!(down.offset(), 0);
    assert_eq!(down.read_u32(&h, 0), 7);
    assert_eq!(down.read_u32(&h, 4), 8);
    assert_eq!(down.read_u32(&h, 8), 9);
    let base = down.try_cast(&h, DynamicObjectBase::id()).unwrap();
    assert_eq!(base.offset(), 4);
}

#[test]
fn write_through_ancestor_view() {
    let (h, class, derived) = class_and_derived();
    let mut up = Object::new(&h, derived, derived_bytes(1, 2, 3)).cast(&h, class);
    up.write_u32(&h, 4, 0xdead_beef);
    assert_eq!(up.read_u32(&h, 4), 0xdead_beef);
    let down = up.cast(&h, derived);
    assert_eq!(down.read_u32(&h, 0), 1);
    assert_eq!(down.read_u32(&h, 4), 2);
    assert_eq!(down.read_u32(&h, 8), 0xdead_beef);
}

#[test]
fn declaration_errors() {
    let mut h = Hierarchy::new();
    let a = subclass(&mut h, DynamicObjectBase::id(), None, 8).unwrap();
    assert_eq!(subclass(&mut h, 9, Some(0), 8), Err(DeclError::UnknownParent));
    assert_eq!(subclass(&mut h, a, None, 8), Err(DeclError::MissingParentField));
    assert_eq!(subclass(&mut h, a, Some(4), 8), Err(DeclError::ParentDoesNotFit));
    assert_eq!(h.len(), 2);
}

#[test]
fn identities_are_fresh() {
    let mut h = Hierarchy::new();
    let a = subclass(&mut h, DynamicObjectBase::id(), None, 0).unwrap();
    let b = subclass(&mut h, DynamicObjectBase::id(), None, 0).unwrap();
    assert_ne!(a, b);
    assert_ne!(a, DynamicObjectBase::id());
    assert_ne!(b, DynamicObjectBase::id());
}

#[test]
fn cloned_view_keeps_offset_and_fields() {
    let (h, class, derived) = class_and_derived();
    let up = Object::new(&h, derived, derived_bytes(4, 5, 6)).cast(&h, class);
    let copy = up.clone();
    assert_eq!(copy.offset(), 4);
    assert_eq!(copy.class(), class);
    assert_eq!(copy.read_u32(&h, 0), 5);
    assert!(copy.isa(&h, derived));
}
