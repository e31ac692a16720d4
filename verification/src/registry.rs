//! The schema-initialization registry.
//!
//! The registry records which normalized storage paths have completed
//! schema initialization, so that constructing several caches over one
//! file runs the migrations once. It is an explicit, injectable value —
//! whoever constructs cache instances owns one and hands it to each —
//! guarded by a mutual-exclusion primitive that is held only across the
//! lookup or insert itself, never across engine work.
//!
//! The registry is shared mutable state: between two calls any other
//! holder of a clone may have marked a path. Its operations therefore
//! promise nothing of their results; the initialization protocol is
//! verified to behave correctly whatever they return.

use vstd::prelude::*;

verus! {

#[verifier::external_type_specification]
#[verifier::external_body]
#[verifier::reject_recursive_types(T)]
pub struct ExMutex<T: ?Sized>(std::sync::Mutex<T>);

/// Tracks which normalized storage paths have completed schema
/// initialization. Clones share one underlying set.
pub struct InitRegistry {
    marked: std::sync::Arc<std::sync::Mutex<Vec<String>>>,
}

impl Clone for InitRegistry {
    /// Relies on `Arc::clone`: a handle to the same underlying set.
    #[verifier::external_body]
    fn clone(&self) -> (r: Self) {
        InitRegistry { marked: std::sync::Arc::clone(&self.marked) }
    }
}

impl InitRegistry {
    /// Relies on `Mutex::new` and `Arc::new`: a registry with no path
    /// marked yet.
    #[verifier::external_body]
    pub fn new() -> (r: Self) {
        InitRegistry { marked: std::sync::Arc::new(std::sync::Mutex::new(Vec::new())) }
    }

    /// Relies on `Mutex::lock` and `Vec::contains`: whether the path has
    /// been marked initialized. The set is shared, so nothing is promised
    /// of the answer.
    #[verifier::external_body]
    pub fn contains(&self, path: &String) -> (r: bool) {
        let guard = self.marked.lock().unwrap_or_else(|e| e.into_inner());
        guard.contains(path)
    }

    /// Relies on `Mutex::lock` and `Vec::push`: marks the path
    /// initialized.
    #[verifier::external_body]
    pub fn mark(&self, path: &String) {
        let mut guard = self.marked.lock().unwrap_or_else(|e| e.into_inner());
        guard.push(path.clone());
    }
}

} // verus!
