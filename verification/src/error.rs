//! What can go wrong, by kind.

use vstd::prelude::*;

verus! {

/// A ledger event, record or resolver answer that does not have the shape
/// the library expects. The item is skipped; nothing else is affected.
#[derive(Clone, Copy, Debug, PartialEq, Eq, Structural)]
pub enum DecodeError {
    /// A record entry that is not private.
    Entry,
    /// A plaintext that is not a `u8` literal.
    U8,
    /// A plaintext that is not an `i8` literal.
    I8,
    /// A plaintext that is not a `u128` literal.
    U128,
    /// A plaintext that is not a field literal.
    Field,
    /// A plaintext that is not an address literal.
    Address,
    /// A plaintext that is not a struct where an edge was expected.
    Edge,
    /// A struct or record that lacks a member, or is no struct at all.
    Record,
    /// A mapping value that is not a plaintext.
    Value,
    /// A board that holds an illegal cell, or too few cells.
    Board,
    /// A transition with fewer inputs than its function takes.
    Inputs,
    /// An owned record that could not be decrypted.
    Sealed,
    /// A successor without a parent.
    Parent,
    /// A successor without the move that led to it.
    Move,
    /// Bytes that the binary encoding does not accept.
    Encoding,
}

/// Every way in which one unit of work can fail.
#[derive(Clone, Copy, Debug, PartialEq, Eq, Structural)]
pub enum MoriError {
    /// Malformed input: skip the item and continue.
    Decode(DecodeError),
    /// A node or record that is referred to is not in the store.
    NotFound,
    /// No fee record is available for a submission.
    FundingExhausted,
    /// The ledger or the move resolver did not answer usefully.
    CollaboratorUnavailable,
    /// The request queue is disconnected: the dispatcher must stop.
    ChannelClosed,
}

impl MoriError {
    /// Whether the worker loop that met this error must stop.
    pub fn is_fatal(&self) -> (r: bool)
        ensures
            r == (*self == MoriError::ChannelClosed),
    {
        match self {
            MoriError::ChannelClosed => true,
            _ => false,
        }
    }
}

} // verus!
