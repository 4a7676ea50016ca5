//! The property-list decoder, which this library calls and does not verify.

use vstd::prelude::*;
use crate::guard::admissible;

verus! {

/// The decoder's dictionary: a mapping from string keys to typed values, in
/// the order of the document. The library carries it through and never looks
/// inside; where a contract equates two dictionaries, it speaks of their keys
/// and values.
#[verifier::external_type_specification]
#[verifier::external_body]
pub struct ExDictionary(plist::Dictionary);

/// The decoder's error: what went wrong, and where in the bytes. The library
/// carries it through to the warning that reports it.
#[verifier::external_type_specification]
#[verifier::external_body]
pub struct ExError(plist::Error);

/// What `plist::from_bytes` makes of a file's bytes when it is asked for a
/// `plist::Dictionary`: the dictionary, or the error that it reports.
pub uninterp spec fn parsed(bytes: Seq<u8>) -> Result<plist::Dictionary, plist::Error>;

/// Calls `plist::from_bytes` for a `plist::Dictionary`.
///
/// The decoder reads nothing but the bytes that it is given. It takes them
/// for the binary encoding where they begin with its eight marking bytes,
/// and else tries the XML and then the ASCII encoding; it consults neither
/// the clock nor the machine. So the contract takes what it returns for a
/// function of the bytes, which [`parsed`] names. Which bytes decode, and to
/// what, is not stated.
///
/// The call does not return on every input, and `requires` leaves out the
/// inputs on which it may not:
/// - It builds nested arrays and dictionaries by recursion. In the XML
///   encoding a container is open from a start tag whose name ends in `dict`
///   or `array` to its end tag; in the ASCII encoding each begins with `(`
///   or `{`; in the binary encoding each is an object of the offset table
///   whose first byte says so, and none is entered while it is entered. An
///   admissible input nests no deeper than [`crate::guard::MAX_NESTING`].
/// - It decodes a container of the binary encoding each time that a
///   reference reaches it, and so may decode one container more often than
///   can be waited for. In an admissible input no container is reached by
///   two references, so that every container is decoded once.
/// - It fails on an XML date that leaves the years 0 to 9999 when it is moved
///   to UTC. An admissible date begins with a year from 1 to 9998, which no
///   offset can move out of them, or it is in UTC.
/// - It fails on a binary date before the year 0. The binary encoding reads
///   objects at the offsets of the offset table only, and no date there is
///   as early in an admissible input. The ASCII encoding has no dates.
#[verifier::external_body]
pub(crate) fn decode(bytes: &Vec<u8>) -> (decoded: Result<plist::Dictionary, plist::Error>)
    requires
        admissible(bytes@),
    ensures
        decoded == parsed(bytes@),
{
    plist::from_bytes(bytes.as_slice())
}

} // verus!
