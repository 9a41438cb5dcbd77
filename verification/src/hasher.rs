use vstd::prelude::*;

verus! {

/// Whether bcrypt accepts the password against the stored hash: the
/// hash text carries its own salt and cost, so the answer is a
/// function of the two texts alone.
pub uninterp spec fn bcrypt_matches(password: Seq<char>, hash: Seq<char>) -> bool;

/// One-way hashing and checking of stored secrets, backed by
/// bcrypt at its default cost.
pub struct Bcrypt;

impl Bcrypt {
    pub fn new() -> Bcrypt {
        Bcrypt
    }

    /// Relies on `bcrypt::hash`: a fresh salted hash that
    /// `bcrypt::verify` accepts for this password. Hashing fails
    /// only when the system's randomness is unavailable; that case
    /// is handed back, not unwrapped.
    #[verifier::external_body]
    pub fn hash(&self, password: &str) -> (r: Option<String>)
        ensures
            match r {
                Some(h) => bcrypt_matches(password@, h@),
                None => true,
            },
    {
        bcrypt::hash(password, bcrypt::DEFAULT_COST).ok()
    }

    /// Relies on `bcrypt::verify`: recomputes the hash under the
    /// salt and cost the stored text names and compares in constant
    /// time. A malformed stored hash makes it answer false.
    #[verifier::external_body]
    pub fn verify(&self, password: &str, hash: &str) -> (r: bool)
        ensures
            r == bcrypt_matches(password@, hash@),
    {
        bcrypt::verify(password, hash).unwrap_or(false)
    }
}

} // verus!
