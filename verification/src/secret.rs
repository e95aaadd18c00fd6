//! A wrapper for sensitive values. The wrapped value can be read only
//! through the explicitly named [`Secret::expose_secret`]; the only textual
//! representation the wrapper offers is a fixed placeholder, so no generic
//! formatting path can leak the content.

use vstd::prelude::*;
use vstd::string::StringExecFns;

verus! {

/// The fixed placeholder text that stands in for any secret.
pub open spec fn redacted_text() -> Seq<char> {
    "[REDACTED]"@
}

/// Holds a sensitive value of type `T`.
///
/// The type deliberately implements no formatting trait: the only way to a
/// `String` is [`Secret::redacted`], whose result is one fixed placeholder.
#[derive(Clone)]
pub struct Secret<T> {
    value: T,
}

impl<T> Secret<T> {
    /// The wrapped value, for use in specifications.
    pub closed spec fn spec_inner(&self) -> T {
        self.value
    }

    /// Wraps a value. Construction never fails.
    pub fn new(value: T) -> (r: Secret<T>)
        ensures
            r.spec_inner() == value,
    {
        Secret { value }
    }

    /// Deliberately named accessor for the plaintext value.
    pub fn expose_secret(&self) -> (r: &T)
        ensures
            *r == self.spec_inner(),
    {
        &self.value
    }

    /// The textual stand-in for this secret: always the fixed placeholder,
    /// never derived from the wrapped value.
    pub fn redacted(&self) -> (r: String)
        ensures
            r@ == redacted_text(),
    {
        String::from_str("[REDACTED]")
    }
}

/// Law: any two texts that [`Secret::redacted`] can return are equal — its
/// contract fixes the result to one constant, independent of the wrapped
/// value, so the redacted form of a secret can never carry it.
pub proof fn lemma_redaction_uniform(ra: Seq<char>, rb: Seq<char>)
    requires
        ra == redacted_text(),
        rb == redacted_text(),
    ensures
        ra == rb,
{
}

} // verus!
