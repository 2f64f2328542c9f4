//! Cache-line padding for the ring's cells and counters, from the `cache_padded` crate.

use vstd::prelude::*;

verus! {

/// `cache_padded::CachePadded`: a value aligned to its own cache line.
#[verifier::external_type_specification]
#[verifier::external_body]
#[verifier::reject_recursive_types(T)]
pub struct ExCachePadded<T>(cache_padded::CachePadded<T>);

/// Relies on `CachePadded::new`: it wraps the value and cannot fail.
pub assume_specification<T>[ cache_padded::CachePadded::<T>::new ](t: T) -> cache_padded::CachePadded<T>;

/// Relies on `CachePadded`'s `Deref`: it lends out the wrapped value and cannot fail.
pub assume_specification<T>[ <cache_padded::CachePadded<T> as core::ops::Deref>::deref ](
    p: &cache_padded::CachePadded<T>,
) -> &T;

} // verus!
