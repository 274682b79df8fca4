//! The ledger's data as this library reads it: plain values only. A caller
//! that holds the ledger's own types fills these in; cryptographic work
//! (deciding ownership, decrypting, deriving serial numbers) is done before.

use vstd::prelude::*;

verus! {

/// A literal of the ledger's value language. Types that nothing here reads
/// are folded into `Other`.
#[derive(Clone, Debug, PartialEq)]
pub enum Literal {
    /// An account address, in its text form.
    Address(String),
    /// A field element, in its text form.
    Field(String),
    I8(i8),
    U8(u8),
    U64(u64),
    U128(u128),
    Other,
}

/// A plaintext value: a literal, a struct of named members, or an array.
#[derive(Debug, PartialEq)]
pub enum Plaintext {
    Literal(Literal),
    /// Members in declaration order; names are unique.
    Struct(Vec<(String, Plaintext)>),
    Array(Vec<Plaintext>),
}

/// One entry of a record, tagged with its visibility.
#[derive(Debug, PartialEq)]
pub enum Entry {
    Constant(Plaintext),
    Public(Plaintext),
    Private(Plaintext),
}

/// A record that this identity owns, decrypted.
#[derive(Debug, PartialEq)]
pub struct Record {
    /// The serial number under which the ledger will report the record spent.
    pub serial_number: String,
    /// Entries in declaration order; names are unique.
    pub data: Vec<(String, Entry)>,
}

/// A value read from one of a program's public mappings.
#[derive(Debug, PartialEq)]
pub enum Value {
    Plaintext(Plaintext),
    Record,
    Future,
}

/// An input of a transition.
#[derive(Debug, PartialEq)]
pub enum Input {
    Constant(Option<Plaintext>),
    Public(Option<Plaintext>),
    Private,
    /// A record that the transition spends, by serial number.
    Record(String),
    ExternalRecord,
}

/// An output of a transition.
#[derive(Debug, PartialEq)]
pub enum Output {
    /// A record that this identity owns.
    Owned(Record),
    /// A record addressed to this identity that could not be decrypted.
    Sealed,
    /// Anything else: a record of another owner, or no record at all.
    Other,
}

/// One call of a program function, as recorded in a transaction.
#[derive(Debug, PartialEq)]
pub struct Transition {
    pub id: String,
    pub program_id: String,
    pub function_name: String,
    pub inputs: Vec<Input>,
    pub outputs: Vec<Output>,
}

/// A transaction as a block confirms it.
#[derive(Debug, PartialEq)]
pub struct Transaction {
    /// False for a transaction that the ledger rejected or aborted.
    pub accepted: bool,
    pub transitions: Vec<Transition>,
}

/// A block of the ledger.
#[derive(Debug, PartialEq)]
pub struct Block {
    pub height: u32,
    pub transactions: Vec<Transaction>,
}

/// The value stored under `name`, if any: that of the first pair so named.
pub open spec fn lookup<T>(pairs: Seq<(String, T)>, name: Seq<char>) -> Option<T>
    decreases pairs.len(),
{
    if pairs.len() == 0 {
        None
    } else if pairs[0].0@ == name {
        Some(pairs[0].1)
    } else {
        lookup(pairs.drop_first(), name)
    }
}

/// Finds the value stored under `name`.
pub fn find<'a, T>(pairs: &'a Vec<(String, T)>, name: &str) -> (r: Option<&'a T>)
    ensures
        match r {
            Some(v) => lookup(pairs@, name@) == Some(*v),
            None => lookup(pairs@, name@) is None,
        },
{
    let key = name.to_owned();
    let mut i: usize = 0;
    assert(pairs@.skip(0) =~= pairs@);
    while i < pairs.len()
        invariant
            i <= pairs.len(),
            key@ == name@,
            lookup(pairs@, name@) == lookup(pairs@.skip(i as int), name@),
        decreases pairs.len() - i,
    {
        assert(pairs@.skip(i as int).drop_first() =~= pairs@.skip(i as int + 1));
        if pairs[i].0 == key {
            return Some(&pairs[i].1);
        }
        i = i + 1;
    }
    None
}

} // verus!
