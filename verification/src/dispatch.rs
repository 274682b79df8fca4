//! The execution dispatcher: what to submit to the ledger for each request,
//! and how the answers of the move resolver become requests.

use vstd::prelude::*;
use vstd::string::*;

use crate::cores::{
    legal_cells, pack, GameState, MovRequest, RestResponse, TallyView, PASS_MOVE,
};
use crate::error::{DecodeError, MoriError};
use crate::pool::{popped, FeePool, FeeRecord};
use crate::text::{
    format_i8, format_u128, format_u8, i8_literal, texts, u128_literal, u8_literal,
};
use crate::{Mori, FEE_NUM};

verus! {

/// A request to the dispatcher.
#[derive(Clone, Debug)]
pub enum Execution {
    /// Commit the successor that the resolver described.
    MoveToNext(RestResponse),
    /// Open a new game.
    OpenGame,
}

/// One call of a function of the game program.
#[derive(Clone, Debug, PartialEq, Eq)]
pub struct ProgramCall {
    pub function: String,
    /// The arguments, each a literal of the ledger's value language.
    pub inputs: Vec<String>,
}

/// What a call is, as mathematics.
pub struct CallView {
    pub function: Seq<char>,
    pub inputs: Seq<Seq<char>>,
}

impl View for ProgramCall {
    type V = CallView;

    open spec fn view(&self) -> CallView {
        CallView { function: self.function@, inputs: texts(self.inputs@) }
    }
}

/// A call that is ready to go out, with the record that pays for it.
#[derive(Clone, Debug)]
pub struct Submission {
    /// The id of the program to call.
    pub program: String,
    pub call: ProgramCall,
    /// The fee to attach, in microcredits.
    pub fee: u64,
    pub fee_record: FeeRecord,
}

/// The call that opens the game whose root the resolver described.
pub open spec fn open_call(root: RestResponse) -> CallView {
    CallView { function: "open_game"@, inputs: seq![u128_literal(root.node_id)] }
}

/// The call that commits a successor: its parent, its id, its board, its
/// status and the move that led to it, in this order. A board that is not
/// legal is reported first, then a missing parent, then a missing move.
pub open spec fn move_call(mov: RestResponse) -> Result<CallView, DecodeError> {
    if !legal_cells(mov.state@) {
        Err(DecodeError::Board)
    } else {
        match (mov.parent_id, mov.human_move) {
            (None, _) => Err(DecodeError::Parent),
            (Some(_), None) => Err(DecodeError::Move),
            (Some(parent), Some(human_move)) => Ok(
                CallView {
                    function: "move_to_next"@,
                    inputs: seq![
                        u128_literal(parent),
                        u128_literal(mov.node_id),
                        u128_literal(pack(mov.state@)),
                        i8_literal(mov.game_status),
                        u8_literal(human_move),
                    ],
                },
            ),
        }
    }
}

/// The call for a request. Opening a game needs the root that the resolver
/// allocated; without it the resolver is taken to be unavailable.
pub open spec fn call_of(exec: Execution, root: Option<RestResponse>) -> Result<
    CallView,
    MoriError,
> {
    match exec {
        Execution::MoveToNext(mov) => match move_call(mov) {
            Ok(call) => Ok(call),
            Err(e) => Err(MoriError::Decode(e)),
        },
        Execution::OpenGame => match root {
            Some(r) => Ok(open_call(r)),
            None => Err(MoriError::CollaboratorUnavailable),
        },
    }
}

impl Execution {
    /// What the dispatcher does with what its queue hands it: a request is
    /// served, and the end of the queue is the end of the dispatcher.
    pub fn received(next: Option<Execution>) -> (r: Result<Execution, MoriError>)
        ensures
            match next {
                Some(exec) => r == Ok::<Execution, MoriError>(exec),
                None => r == Err::<Execution, MoriError>(MoriError::ChannelClosed),
            },
    {
        match next {
            Some(exec) => Ok(exec),
            None => Err(MoriError::ChannelClosed),
        }
    }

    /// Whether the request needs a root from the resolver before it can be
    /// turned into a call.
    pub fn needs_root(&self) -> (r: bool)
        ensures
            r == (*self is OpenGame),
    {
        match self {
            Execution::OpenGame => true,
            Execution::MoveToNext(_) => false,
        }
    }
}

/// Builds the call that opens a game.
pub fn open_game_call(root: &RestResponse) -> (r: ProgramCall)
    ensures
        r@ == open_call(*root),
{
    let mut inputs: Vec<String> = Vec::new();
    inputs.push(format_u128(root.node_id));
    let r = ProgramCall { function: "open_game".to_owned(), inputs };
    assert(r@.inputs =~= open_call(*root).inputs);
    r
}

/// Builds the call that commits a successor.
pub fn move_to_next_call(mov: &RestResponse) -> (r: Result<ProgramCall, DecodeError>)
    ensures
        match r {
            Ok(call) => move_call(*mov) == Ok::<CallView, DecodeError>(call@),
            Err(e) => move_call(*mov) == Err::<CallView, DecodeError>(e),
        },
{
    let game_state = match GameState::try_from_vec_i8(mov.state.as_slice()) {
        Some(state) => state,
        None => {
            return Err(DecodeError::Board);
        },
    };
    let parent_id = match mov.parent_id {
        Some(id) => id,
        None => {
            return Err(DecodeError::Parent);
        },
    };
    let human_move = match mov.human_move {
        Some(m) => m,
        None => {
            return Err(DecodeError::Move);
        },
    };
    let mut inputs: Vec<String> = Vec::new();
    inputs.push(format_u128(parent_id));
    inputs.push(format_u128(mov.node_id));
    inputs.push(format_u128(game_state.raw()));
    inputs.push(format_i8(mov.game_status));
    inputs.push(format_u8(human_move));
    let r = ProgramCall { function: "move_to_next".to_owned(), inputs };
    assert(r@.inputs =~= move_call(*mov)->Ok_0.inputs);
    Ok(r)
}

/// What to do with one answer of the resolver.
#[derive(Clone, Debug)]
pub enum PassStep {
    /// The answer is a position to play in: commit it.
    Done(Execution),
    /// The answer is the pass sentinel: send this request and look at the
    /// answer to it, with the count of pass requests then sent.
    Retry { request: MovRequest, tries: u32 },
    /// The answer is the pass sentinel and the bound on passes in a row has
    /// been reached.
    GiveUp,
}

impl Mori {
    /// Turns a request into a submission. The call is built first; only if
    /// that succeeds is a fee record taken from the pool. A request that fails
    /// leaves the pool as it was.
    pub fn execute_program(
        &self,
        exec: &Execution,
        root: Option<&RestResponse>,
        pool: &mut FeePool,
    ) -> (r: Result<Submission, MoriError>)
        ensures
            match call_of(
                *exec,
                match root {
                    Some(x) => Some(*x),
                    None => None,
                },
            ) {
                Err(e) => r matches Err(x) && x == e && final(pool)@ == old(pool)@,
                Ok(call) => final(pool)@ == popped(old(pool)@).1 && (match popped(
                    old(pool)@,
                ).0 {
                    None => r matches Err(x) && x == MoriError::FundingExhausted,
                    Some(record) => r matches Ok(s) && s.program == self.program && s.call@
                        == call && s.fee == FEE_NUM && s.fee_record@ == record,
                }),
            },
    {
        let call = match exec {
            Execution::MoveToNext(mov) => match move_to_next_call(mov) {
                Ok(call) => call,
                Err(e) => {
                    return Err(MoriError::Decode(e));
                },
            },
            Execution::OpenGame => match root {
                Some(r) => open_game_call(r),
                None => {
                    return Err(MoriError::CollaboratorUnavailable);
                },
            },
        };
        match pool.pop_front() {
            Ok(fee_record) => Ok(
                Submission { program: self.program.clone(), call, fee: FEE_NUM, fee_record },
            ),
            Err(e) => Err(e),
        }
    }

    /// Decides what to do with an answer of the resolver after `tries` pass
    /// requests have been sent for it.
    pub fn move_to_next_remote(&self, resp: RestResponse, tries: u32) -> (r: PassStep)
        ensures
            match r {
                PassStep::Done(exec) => resp.valid_moves@ != seq![PASS_MOVE] && exec
                    == Execution::MoveToNext(resp),
                PassStep::Retry { request, tries: sent } => resp.valid_moves@ == seq![PASS_MOVE]
                    && tries < self.pass_cap && sent == tries + 1 && request@.parent_id
                    == resp.node_id && request@.votes == seq![
                    TallyView { mov: PASS_MOVE, addresses: Seq::empty() },
                ],
                PassStep::GiveUp => resp.valid_moves@ == seq![PASS_MOVE] && tries >= self.pass_cap,
            },
    {
        if !resp.is_pass() {
            PassStep::Done(Execution::MoveToNext(resp))
        } else if tries < self.pass_cap {
            PassStep::Retry { request: MovRequest::pass(resp.node_id), tries: tries + 1 }
        } else {
            PassStep::GiveUp
        }
    }
}

} // verus!
