use vstd::prelude::*;

verus! {

/// Relies on rand::random (thread-local generator): returns some value of
/// the type and nothing more is known of it.
pub assume_specification<T>[ rand::random::<T> ]() -> (r: T)
    where
        rand::distributions::Standard: rand::distributions::Distribution<T>,
;

} // verus!
