//! Verified core of a ledger-indexed voting game: the board encoding, the
//! vote tally, the event filter, the fee-record pool, and the planning
//! steps of the sync engine and the execution dispatcher.
//!
//! Nothing in this crate performs I/O. Every function computes on plain
//! values; the surrounding program reads from the ledger and the store,
//! calls into this crate, and carries out what it returns.

use vstd::prelude::*;
use vstd::string::*;

use crate::filter::TransitionFilter;

pub use crate::dispatch::Execution;

pub mod cores;
pub mod db;
pub mod dispatch;
pub mod error;
pub mod filter;
pub mod ledger;
pub mod pool;
pub mod sync;
pub mod text;
pub mod utils;

verus! {

/// Name of the ledger network that the node talks to.
pub const ALEO_NETWORK: &'static str = "testnet3";

/// Fee attached to every submitted execution, in microcredits (0.04 credits).
/// A funding record must hold at least this much to enter the pool.
pub const FEE_NUM: u64 = 40000;

/// The most requests that wait for the dispatcher. A producer that finds
/// the queue full waits: a dispatcher that stalls holds up the sync engine.
pub const QUEUE_CAPACITY: usize = 100;

/// The pause between two passes of the sync engine, in seconds.
pub const SYNC_INTERVAL_SECS: u64 = 15;

/// The engine: what it is configured with. Its methods plan and decide;
/// none of them reads or writes anything outside its arguments.
#[derive(Clone, Debug)]
pub struct Mori {
    /// Selects the transitions of the game program.
    pub filter: TransitionFilter,
    /// The id of the game program.
    pub program: String,
    /// The base address of the move resolver.
    pub ai_dest: String,
    /// The authorization header sent to the move resolver.
    pub ai_token: String,
    /// The key under which the checkpoint of this identity is stored.
    pub network_key: String,
    /// The number of voters that each node is created for.
    pub expected_voters: u32,
    /// The most pass requests sent in a row for one successor.
    pub pass_cap: u32,
}

/// The key of the checkpoint row: the network id in double quotes, a
/// hyphen, and the signing identity.
pub open spec fn network_key_of(network_id: Seq<char>, identity: Seq<char>) -> Seq<char> {
    seq!['"'] + network_id + seq!['"', '-'] + identity
}

/// The authorization header for a token.
pub open spec fn token_header(token: Seq<char>) -> Seq<char> {
    " Bearar "@ + token
}

impl Mori {
    /// Configures the engine for one program and one identity. The filter
    /// lets pass the three functions of the program that the engine handles.
    pub fn new(
        network_id: &str,
        identity: &str,
        program_name: String,
        ai_dest: String,
        ai_token: String,
        expected_voters: u32,
        pass_cap: u32,
    ) -> (r: Mori)
        ensures
            r.filter.programs() == seq![program_name@],
            r.filter.functions() == seq!["vote"@, "move_to_next"@, "open_game"@],
            r.program == program_name,
            r.ai_dest == ai_dest,
            r.ai_token@ == token_header(ai_token@),
            r.network_key@ == network_key_of(network_id@, identity@),
            r.expected_voters == expected_voters,
            r.pass_cap == pass_cap,
    {
        proof {
            reveal_strlit("\"");
            reveal_strlit("\"-");
        }
        let mut network_key = String::from_str("\"");
        network_key.append(network_id);
        network_key.append("\"-");
        network_key.append(identity);
        assert(network_key@ =~= network_key_of(network_id@, identity@));
        let mut header = String::from_str(" Bearar ");
        header.append(ai_token.as_str());
        let filter = TransitionFilter::new().add_program(program_name.clone()).add_function(
            String::from_str("vote"),
        ).add_function(String::from_str("move_to_next")).add_function(
            String::from_str("open_game"),
        );
        assert(filter.programs() =~= seq![program_name@]);
        assert(filter.functions() =~= seq!["vote"@, "move_to_next"@, "open_game"@]);
        Mori {
            filter,
            program: program_name,
            ai_dest,
            ai_token: header,
            network_key,
            expected_voters,
            pass_cap,
        }
    }
}

} // verus!
