//! Readers for single plaintext values.

use vstd::prelude::*;

use crate::cores::NodeEdge;
use crate::error::DecodeError;
use crate::ledger::{find, lookup, Entry, Literal, Plaintext};

verus! {

/// The plaintext of a private entry; entries of other visibility are refused.
pub open spec fn plain_of(e: Entry) -> Result<Plaintext, DecodeError> {
    match e {
        Entry::Private(p) => Ok(p),
        _ => Err(DecodeError::Entry),
    }
}

/// The value of a `u8` literal.
pub open spec fn u8_of(p: Plaintext) -> Result<u8, DecodeError> {
    match p {
        Plaintext::Literal(Literal::U8(v)) => Ok(v),
        _ => Err(DecodeError::U8),
    }
}

/// The value of an `i8` literal.
pub open spec fn i8_of(p: Plaintext) -> Result<i8, DecodeError> {
    match p {
        Plaintext::Literal(Literal::I8(v)) => Ok(v),
        _ => Err(DecodeError::I8),
    }
}

/// The value of a `u128` literal.
pub open spec fn u128_of(p: Plaintext) -> Result<u128, DecodeError> {
    match p {
        Plaintext::Literal(Literal::U128(v)) => Ok(v),
        _ => Err(DecodeError::U128),
    }
}

/// The text of a field literal.
pub open spec fn field_of(p: Plaintext) -> Result<String, DecodeError> {
    match p {
        Plaintext::Literal(Literal::Field(v)) => Ok(v),
        _ => Err(DecodeError::Field),
    }
}

/// The text of an address literal.
pub open spec fn addr_of(p: Plaintext) -> Result<String, DecodeError> {
    match p {
        Plaintext::Literal(Literal::Address(v)) => Ok(v),
        _ => Err(DecodeError::Address),
    }
}

/// The edge that a struct with members `node_id` and `mov` stands for. A
/// missing member is reported before a member of the wrong type, and
/// `node_id` is read before `mov`.
pub open spec fn edge_of(p: Plaintext) -> Result<NodeEdge, DecodeError> {
    match p {
        Plaintext::Struct(members) => match (
            lookup(members@, "node_id"@),
            lookup(members@, "mov"@),
        ) {
            (Some(id), Some(mov)) => match u128_of(id) {
                Err(e) => Err(e),
                Ok(node_id) => match u8_of(mov) {
                    Err(e) => Err(e),
                    Ok(mov) => Ok(NodeEdge { node_id, mov }),
                },
            },
            _ => Err(DecodeError::Record),
        },
        _ => Err(DecodeError::Edge),
    }
}

/// The plaintext of a private entry.
pub fn entry_to_plain(e: &Entry) -> (r: Result<&Plaintext, DecodeError>)
    ensures
        match r {
            Ok(p) => plain_of(*e) == Ok::<Plaintext, DecodeError>(*p),
            Err(x) => plain_of(*e) == Err::<Plaintext, DecodeError>(x),
        },
{
    match e {
        Entry::Private(v) => Ok(v),
        _ => Err(DecodeError::Entry),
    }
}

/// Reads a `u8` literal.
pub fn handle_u8_plaintext(plaintext: &Plaintext) -> (r: Result<u8, DecodeError>)
    ensures
        r == u8_of(*plaintext),
{
    match plaintext {
        Plaintext::Literal(Literal::U8(v)) => Ok(*v),
        _ => Err(DecodeError::U8),
    }
}

/// Reads an `i8` literal.
pub fn handle_i8_plaintext(plaintext: &Plaintext) -> (r: Result<i8, DecodeError>)
    ensures
        r == i8_of(*plaintext),
{
    match plaintext {
        Plaintext::Literal(Literal::I8(v)) => Ok(*v),
        _ => Err(DecodeError::I8),
    }
}

/// Reads a `u128` literal.
pub fn handle_u128_plaintext(plaintext: &Plaintext) -> (r: Result<u128, DecodeError>)
    ensures
        r == u128_of(*plaintext),
{
    match plaintext {
        Plaintext::Literal(Literal::U128(v)) => Ok(*v),
        _ => Err(DecodeError::U128),
    }
}

/// Reads a field literal, as text.
pub fn handle_field_plaintext(plaintext: &Plaintext) -> (r: Result<String, DecodeError>)
    ensures
        r == field_of(*plaintext),
{
    match plaintext {
        Plaintext::Literal(Literal::Field(v)) => Ok(v.clone()),
        _ => Err(DecodeError::Field),
    }
}

/// Reads an address literal, as text.
pub fn handle_addr_plaintext(plaintext: &Plaintext) -> (r: Result<String, DecodeError>)
    ensures
        r == addr_of(*plaintext),
{
    match plaintext {
        Plaintext::Literal(Literal::Address(v)) => Ok(v.clone()),
        _ => Err(DecodeError::Address),
    }
}

/// Reads the edge to the parent out of a struct with members `node_id`
/// and `mov`.
pub fn handle_from_plaintext(plaintext: &Plaintext) -> (r: Result<NodeEdge, DecodeError>)
    ensures
        r == edge_of(*plaintext),
{
    match plaintext {
        Plaintext::Struct(s) => {
            let from_node_id_entry = find(s, "node_id");
            let from_mov_entry = find(s, "mov");
            match (from_node_id_entry, from_mov_entry) {
                (Some(id), Some(mov)) => {
                    let from_node_id = match handle_u128_plaintext(id) {
                        Ok(v) => v,
                        Err(e) => {
                            return Err(e);
                        },
                    };
                    let from_mov = match handle_u8_plaintext(mov) {
                        Ok(v) => v,
                        Err(e) => {
                            return Err(e);
                        },
                    };
                    Ok(NodeEdge { node_id: from_node_id, mov: from_mov })
                },
                _ => Err(DecodeError::Record),
            }
        },
        _ => Err(DecodeError::Edge),
    }
}

} // verus!
