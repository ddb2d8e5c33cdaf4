//! The two capabilities a table consumes: a digest function and a family of
//! reduction functions.  Both are supplied by the caller; the table only
//! requires that they behave as pure functions of their argument.

use vstd::prelude::*;

verus! {

/// A hashing capability: a pure, deterministic, thread-safe function from a
/// plaintext to a digest.
///
/// `digest_spec` is the implementor's own mathematical description of that
/// function; `digest` must return exactly the string it describes, so that
/// two calls on the same plaintext always agree.
pub trait Hasher: Sync {
    /// The function the digest computes, at the specification level.
    spec fn digest_spec(&self, plaintext: Seq<char>) -> Seq<char>;

    /// Digest a plaintext.
    fn digest(&self, plaintext: &str) -> (r: String)
        ensures
            r@ == self.digest_spec(plaintext@),
    ;
}

/// A reduction capability: a pure, deterministic, thread-safe function from a
/// digest back into the plaintext space.  A table holds an ordered sequence
/// of these, one per column; distinct columns should reduce differently, or
/// chains merge and coverage degrades.
pub trait Reducer: Sync {
    /// The function the reduction computes, at the specification level.
    spec fn reduce_spec(&self, hash: Seq<char>) -> Seq<char>;

    /// Reduce a digest to a plaintext.
    fn reduce(&self, hash: &str) -> (r: String)
        ensures
            r@ == self.reduce_spec(hash@),
    ;
}

} // verus!
