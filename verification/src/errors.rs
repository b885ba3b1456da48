use vstd::prelude::*;

verus! {

/// Errors reported by the library's constructors.
///
/// Runtime scheduling never fails upward: only configuration and hook
/// loading can produce one of these.
#[derive(Debug)]
pub enum FisherError {
    /// A hook declaration names a provider that the library does not know.
    ProviderNotFound(String),
    /// The worker pool was configured with zero threads.
    InvalidThreadCount,
}

} // verus!
