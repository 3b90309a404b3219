//! Error kinds reported while parsing descriptor text.

use vstd::prelude::*;

verus! {

/// The five mandatory whitespace-delimited fields of a region header line.
#[derive(Clone, Copy, Debug, PartialEq, Eq, Structural)]
pub enum Field {
    AddressRange,
    Permissions,
    Offset,
    Device,
    Inode,
}

/// Why a region header line failed to parse.
#[derive(Clone, Copy, Debug, PartialEq, Eq, Structural)]
pub enum ParseError {
    /// A mandatory header field was absent.
    MissingField(Field),
    /// The address-range token has no `-` separator.
    InvalidAddress,
    /// The permission token is not exactly four characters.
    InvalidPermissions,
    /// The device token has no `:` separator.
    InvalidDevice,
    /// A numeric token is not a valid numeral under its radix, or its
    /// value does not fit the target integer type.
    InvalidInt,
}

} // verus!
