//! A redaction wrapper for sensitive configuration values (passwords,
//! certificate paths). The wrapped value is reachable only through the
//! `expose` accessors, so nothing prints it by accident; display formatting
//! that emits a redaction marker lives with the unverified glue, which keeps
//! its own formatting-capable copy of the type.

use vstd::prelude::*;

verus! {

/// A value hidden behind an explicit `expose` step.
#[derive(Clone)]
pub struct Secret<T>(T);

impl<T> Secret<T> {
    /// The wrapped value, for contracts.
    pub closed spec fn value(self) -> T {
        self.0
    }

    /// Wraps a value.
    pub fn new(t: T) -> (s: Secret<T>)
        ensures
            s.value() == t,
    {
        Secret(t)
    }

    /// Grants read access to the wrapped value.
    pub fn expose(&self) -> (r: &T)
        ensures
            r == self.value(),
    {
        &self.0
    }

    /// Unwraps the value, consuming the secret.
    pub fn expose_owned(self) -> (r: T)
        ensures
            r == self.value(),
    {
        self.0
    }
}

} // verus!
