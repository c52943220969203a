use vstd::prelude::*;

verus! {

/// Why a decode failed.
#[derive(Debug, PartialEq, Eq, Clone, Structural)]
pub enum BitcoinError {
    /// The input ends before a fixed-size or declared-length field is complete.
    InsufficientBytes,
    /// Enough input was present, but it contradicts itself.
    InvalidFormat,
}

/// What a decoder returned, with the value replaced by its view and the
/// consumed length as a mathematical integer.
pub open spec fn decoded<T: View>(r: Result<(T, usize), BitcoinError>) -> Result<
    (T::V, nat),
    BitcoinError,
> {
    match r {
        Ok((v, n)) => Ok((v@, n as nat)),
        Err(e) => Err(e),
    }
}

} // verus!
