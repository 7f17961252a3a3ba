//! The typed failures of the library: address parsing, precompile dispatch,
//! and transaction decoding each report through their own enum.

use vstd::prelude::*;

verus! {

/// Failure of hex address parsing.
#[derive(Debug, Clone, Copy, PartialEq, Eq, Structural)]
pub enum AddressError {
    /// Not exactly 40 hex characters after the optional `0x` prefix.
    InvalidLength,
    /// A character that is not a hex digit.
    InvalidDigit,
}

/// Failure of a precompile call.
#[derive(Debug, Clone, Copy, PartialEq, Eq, Structural)]
pub enum PrecompileError {
    /// No handler is registered at the called address.
    NotFound,
    /// The input holds fewer than the four selector bytes.
    InputTooShort,
    /// The selector matches no function of the handler.
    UnknownSelector,
}

/// Failure of wire parsing or decoding of a type `0x7e` transaction.
#[derive(Debug, Clone, Copy, PartialEq, Eq, Structural)]
pub enum Tx7eError {
    /// The wire bytes are empty.
    Empty,
    /// The first wire byte is not the `0x7e` type tag.
    WrongType,
    /// The encoded list does not hold exactly 13 items.
    WrongArity,
    /// A fixed-size field (address or source hash) has the wrong length.
    InvalidLength,
    /// An unsigned-integer field has a leading zero byte or does not fit 64 bits.
    IntegerFormat,
    /// The bytes are not a well-formed canonical list encoding.
    Malformed,
}

impl Tx7eError {
    /// The human-readable description of this decoding failure.
    pub open spec fn spec_message(self) -> Seq<char> {
        match self {
            Tx7eError::Empty => "Empty transaction data"@,
            Tx7eError::WrongType => "Invalid transaction type: expected 0x7e"@,
            Tx7eError::WrongArity => "Wrong list arity: expected 13 items"@,
            Tx7eError::InvalidLength => "Invalid field length"@,
            Tx7eError::IntegerFormat => "Invalid integer encoding"@,
            Tx7eError::Malformed => "Malformed list encoding"@,
        }
    }

    pub fn message(&self) -> (r: String)
        ensures
            r@ == self.spec_message(),
    {
        match self {
            Tx7eError::Empty => "Empty transaction data".to_owned(),
            Tx7eError::WrongType => "Invalid transaction type: expected 0x7e".to_owned(),
            Tx7eError::WrongArity => "Wrong list arity: expected 13 items".to_owned(),
            Tx7eError::InvalidLength => "Invalid field length".to_owned(),
            Tx7eError::IntegerFormat => "Invalid integer encoding".to_owned(),
            Tx7eError::Malformed => "Malformed list encoding".to_owned(),
        }
    }
}

} // verus!
