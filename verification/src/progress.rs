//! Reading a message from a stream whose bytes arrive piece by piece.
use vstd::prelude::*;

verus! {

/// What the bytes received so far amount to.
#[derive(Debug)]
pub enum Progress<T, E> {
    /// Nothing can be said before this many more bytes are there.
    More(usize),
    /// The first `used` bytes are the message.
    Done { value: T, used: usize },
    /// The bytes are no message, whatever follows.
    Failed(E),
}

impl<T, E> Progress<T, E> {
    /// Whether more bytes cannot change the outcome.
    pub open spec fn settled(self) -> bool {
        !(self is More)
    }
}

/// How many bytes are missing to have `want` of them.
pub open spec fn missing<A>(bytes: Seq<A>, want: int) -> usize {
    (want - bytes.len()) as usize
}

} // verus!
