//! Errors the table reports.

use vstd::prelude::*;

verus! {

/// Why opening a table or computing its header image failed.
#[derive(Clone, Copy, Debug, PartialEq, Eq, Structural)]
pub enum Error {
    /// The record index could not be encoded into a header image.
    MsgPackEnc,
    /// The header image could not be decoded into a record index.
    MsgPackDec,
    /// The decoded record index does not describe the data image: the sum of
    /// its lengths differs from the image's size.
    Corrupt,
}

} // verus!
