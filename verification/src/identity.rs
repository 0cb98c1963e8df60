use std::sync::Arc;
use vstd::prelude::*;

verus! {

/// A token that is equal only to itself and its clones: two tokens are equal
/// exactly when they share one allocation.
#[derive(Debug, Clone)]
pub struct Identity {
    raw: Arc<()>,
}

impl Identity {
    pub fn new() -> (r: Self) {
        Identity { raw: Arc::new(()) }
    }
}

impl PartialEq for Identity {
    /// Whether both tokens share one allocation.
    ///
    /// Calls `Arc::ptr_eq`. The answer depends on where the allocator put the
    /// tokens, so nothing is stated of it.
    #[verifier::external_body]
    fn eq(&self, other: &Self) -> (r: bool) {
        Arc::ptr_eq(&self.raw, &other.raw)
    }
}

impl Eq for Identity {

}

} // verus!
