//! Single-inheritance casting over values that embed their parent by value.
//!
//! A [`Hierarchy`] records, for every declared class, its parent, the byte
//! offset at which the parent is embedded, and the byte size of its layout.
//! An [`Object`] is a typed view over the bytes of one concrete value: it can
//! be re-interpreted as any class on the concrete class's ancestor chain.
#![allow(non_snake_case)]

pub mod hierarchy;
pub mod object;

pub use object::Object;
pub use hierarchy::{
    Class, DeclError, DynamicObjectBase, Hierarchy, IsSameClass, isSubclassOf, offsetOf, subclass,
};
