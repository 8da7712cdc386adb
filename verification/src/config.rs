//! Configuration for encoding and decoding.

use vstd::prelude::*;

verus! {

/// Configuration for encoding and decoding.
///
/// `max_size`, when set, must be positive; a budget of zero refuses every
/// operation.
#[derive(Clone, Copy, Debug, PartialEq, Eq, Structural)]
pub struct Config {
    /// Whether to use indices instead of strings as keys for struct fields and
    /// enum variants.
    pub use_indices: bool,
    /// Whether to return an error if there is excess data in the input.
    pub error_on_excess_data: bool,
    /// Maximum number of bytes to read or write, if any limit.
    pub max_size: Option<usize>,
}

impl Default for Config {
    /// Named keys, excess data refused, no byte budget.
    fn default() -> (r: Self)
        ensures
            r.use_indices == false,
            r.error_on_excess_data == true,
            r.max_size is None,
    {
        Self { use_indices: false, error_on_excess_data: true, max_size: None }
    }
}

} // verus!
