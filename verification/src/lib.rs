//! Persistent, copy-on-write sequences backed by an unrolled linked list.
//!
//! A list is a chain of buckets. Each bucket stores a run of elements in a
//! shared vector together with a cursor that says how many of them are
//! visible. Every operation is specified over the list's view, the sequence
//! of its elements from head to tail.

pub mod backing;
pub mod compare;
pub mod handler;
pub mod laws;
pub mod list;
pub mod model;
pub mod shared;
pub mod shared_compare;
pub mod shared_list;
pub mod shared_sorting;
pub mod shared_unrolled;
pub mod sorting;
pub mod unrolled;
