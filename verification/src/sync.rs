//! The sync engine: which blocks to fetch, what the transitions of a block
//! mean, and what a vote does to a node.

use vstd::prelude::*;

use crate::cores::{
    distinct_voters, node_of_plaintext, tally, vote_of_record, GameNode, MovRequest, NodeView, RequestView,
    RestResponse, Vote,
};
use crate::db::{apply_all, checkpoint_ops};
use crate::error::{DecodeError, MoriError};
use crate::filter::{targets, TransitionFilter};
use crate::ledger::{Block, Input, Output, Transition, Value};
use crate::pool::{
    created_records, fee_views, observed, observed_all, spent_serials, without_spent, FeePool,
    FeeView, PoolDelta,
};
use crate::text::texts;
use crate::text::same_text;
use crate::utils::{handle_u128_plaintext, u128_of};
use crate::Mori;

verus! {

/// The number of blocks fetched with one request.
pub const BATCH_SIZE: u32 = 45;

/// What one pass of the engine is to do.
#[derive(Clone, Debug, PartialEq, Eq)]
pub struct SyncPlan {
    /// The ranges of heights to fetch, each from a start to an end that is
    /// not included, in the order in which to process them.
    pub batches: Vec<(u32, u32)>,
    /// The height to store as the checkpoint once all batches are done;
    /// `None` if the checkpoint is to stay as it is.
    pub checkpoint: Option<u32>,
}

/// The height from which to sync: the stored checkpoint, or 0 if none is
/// stored.
pub open spec fn height_of(stored: Option<u32>) -> u32 {
    match stored {
        Some(h) => h,
        None => 0,
    }
}

/// The number of batches that cover the heights from `cur` up to `latest`.
pub open spec fn batch_count(cur: u32, latest: u32) -> nat {
    if cur >= latest {
        0
    } else {
        ((latest - cur + BATCH_SIZE - 1) / (BATCH_SIZE as int)) as nat
    }
}

/// The `i`-th batch: `BATCH_SIZE` heights, or what is left for the last.
pub open spec fn batch_at(cur: u32, latest: u32, i: int) -> (u32, u32) {
    (
        (cur + BATCH_SIZE * i) as u32,
        if cur + BATCH_SIZE * (i + 1) < latest {
            (cur + BATCH_SIZE * (i + 1)) as u32
        } else {
            latest
        },
    )
}

/// The batches that cover the heights from `cur` up to `latest`.
pub open spec fn batches(cur: u32, latest: u32) -> Seq<(u32, u32)> {
    Seq::new(batch_count(cur, latest), |i: int| batch_at(cur, latest, i))
}

/// The checkpoint to store after a pass: the latest height if it is above
/// the current one, and nothing otherwise.
pub open spec fn checkpoint_of(cur: u32, latest: u32) -> Option<u32> {
    if cur >= latest {
        None
    } else {
        Some(latest)
    }
}

/// The stored checkpoint after a pass from `stored` to `latest`.
pub open spec fn stored_after(stored: Option<u32>, latest: u32) -> Option<u32> {
    match checkpoint_of(height_of(stored), latest) {
        Some(h) => Some(h),
        None => stored,
    }
}

impl Mori {
    /// Plans a pass from the stored checkpoint to the latest height of the
    /// ledger. If the checkpoint has reached that height there is nothing to
    /// fetch and nothing to store.
    pub fn sync(&self, stored: Option<u32>, latest: u32) -> (plan: SyncPlan)
        ensures
            plan.batches@ == batches(height_of(stored), latest),
            plan.checkpoint == checkpoint_of(height_of(stored), latest),
    {
        let cur: u32 = match stored {
            Some(h) => h,
            None => 0,
        };
        let mut out: Vec<(u32, u32)> = Vec::new();
        if cur >= latest {
            assert(out@ =~= batches(cur, latest));
            return SyncPlan { batches: out, checkpoint: None };
        }
        let mut start: u32 = cur;
        while start < latest
            invariant
                cur < latest,
                cur <= start <= latest,
                out@.len() <= batch_count(cur, latest),
                start < latest ==> start == cur + BATCH_SIZE * out@.len(),
                start == latest ==> out@.len() == batch_count(cur, latest),
                forall|i: int| 0 <= i < out@.len() ==> out@[i] == batch_at(cur, latest, i),
            decreases latest - start,
        {
            let end: u32 = if latest - start > BATCH_SIZE {
                start + BATCH_SIZE
            } else {
                latest
            };
            out.push((start, end));
            start = end;
        }
        assert(out@ =~= batches(cur, latest));
        SyncPlan { batches: out, checkpoint: Some(latest) }
    }

    /// The height to store when the caller asks to start from `height`: that
    /// height if it is above the stored checkpoint, and nothing otherwise.
    pub fn set_cur_height(&self, stored: Option<u32>, height: u32) -> (r: Option<u32>)
        ensures
            r == (if height > height_of(stored) {
                Some(height)
            } else {
                None
            }),
    {
        let cur: u32 = match stored {
            Some(h) => h,
            None => 0,
        };
        if height > cur {
            Some(height)
        } else {
            None
        }
    }
}

/// The batches of a pass lie end to end from the current height to the
/// latest, each holds at least one and at most `BATCH_SIZE` heights.
pub proof fn lemma_batches_cover(cur: u32, latest: u32)
    requires
        cur < latest,
    ensures
        batches(cur, latest).len() >= 1,
        batches(cur, latest).first().0 == cur,
        batches(cur, latest).last().1 == latest,
        forall|i: int|
            0 <= i < batches(cur, latest).len() ==> (#[trigger] batches(cur, latest)[i]).0 < batches(
                cur,
                latest,
            )[i].1 <= batches(cur, latest)[i].0 + BATCH_SIZE,
        forall|i: int|
            0 <= i < batches(cur, latest).len() - 1 ==> (#[trigger] batches(cur, latest)[i]).1
                == batches(cur, latest)[i + 1].0,
{
}

/// A second pass with no new blocks does nothing: after a pass to the
/// latest height, the plan for another pass to the same height fetches no
/// block and stores no checkpoint, so the checkpoint stays as it is and,
/// whatever the store holds, the changes of the pass leave it as it is.
pub proof fn lemma_sync_idempotent(
    stored: Option<u32>,
    latest: u32,
    key: Seq<u8>,
    store: Map<Seq<u8>, Seq<u8>>,
)
    ensures
        batches(height_of(stored_after(stored, latest)), latest) == Seq::<(u32, u32)>::empty(),
        checkpoint_of(height_of(stored_after(stored, latest)), latest) is None,
        stored_after(stored_after(stored, latest), latest) == stored_after(stored, latest),
        apply_all(
            store,
            checkpoint_ops(key, checkpoint_of(height_of(stored_after(stored, latest)), latest)),
        ) == store,
{
    assert(batches(height_of(stored_after(stored, latest)), latest) =~= Seq::<(u32, u32)>::empty());
}

/// The checkpoint never goes down.
pub proof fn lemma_checkpoint_monotone(stored: Option<u32>, latest: u32)
    ensures
        height_of(stored_after(stored, latest)) >= height_of(stored),
        height_of(stored_after(stored, latest)) >= latest,
{
}

/// What a transition is about, by the name of its function.
#[derive(Clone, Copy, Debug, PartialEq, Eq, Structural)]
pub enum EventKind {
    Vote,
    MoveToNext,
    OpenGame,
    /// Any other function: nothing to do.
    Ignored,
}

/// The kind of event that a function name stands for.
pub open spec fn kind_of(function_name: Seq<char>) -> EventKind {
    if function_name == "vote"@ {
        EventKind::Vote
    } else if function_name == "move_to_next"@ {
        EventKind::MoveToNext
    } else if function_name == "open_game"@ {
        EventKind::OpenGame
    } else {
        EventKind::Ignored
    }
}

/// Tells the kind of event from the name of a function.
pub fn classify(function_name: &str) -> (r: EventKind)
    ensures
        r == kind_of(function_name@),
{
    if same_text(function_name, "vote") {
        EventKind::Vote
    } else if same_text(function_name, "move_to_next") {
        EventKind::MoveToNext
    } else if same_text(function_name, "open_game") {
        EventKind::OpenGame
    } else {
        EventKind::Ignored
    }
}

/// What a transition asks the engine to do.
#[derive(Clone, Debug, PartialEq)]
pub enum LedgerEvent {
    /// A vote to offer to the node that it names.
    Vote(Vote),
    /// A move was committed: `child` is the new node, `parent` the node it
    /// follows, where the transition tells.
    MoveCommitted { child: u128, parent: Option<u128> },
    /// A game was opened with this root.
    OpenGame { node_id: u128 },
    /// Nothing to do.
    Ignored,
}

/// The `u128` of a public input that carries its plaintext; `None` for any
/// other input.
pub open spec fn public_u128(input: Input) -> Option<Result<u128, DecodeError>> {
    match input {
        Input::Public(Some(p)) => Some(u128_of(p)),
        _ => None,
    }
}

/// The event of a vote transition, read from its first output: an owned
/// record is a vote, a sealed record is an error, anything else is ignored.
pub open spec fn vote_event(t: Transition) -> Result<LedgerEvent, DecodeError> {
    if t.outputs@.len() == 0 {
        Ok(LedgerEvent::Ignored)
    } else {
        match t.outputs@[0] {
            Output::Owned(record) => match vote_of_record(record) {
                Ok(vote) => Ok(LedgerEvent::Vote(vote)),
                Err(e) => Err(e),
            },
            Output::Sealed => Err(DecodeError::Sealed),
            Output::Other => Ok(LedgerEvent::Ignored),
        }
    }
}

/// The event of an opening transition, read from its first input.
pub open spec fn open_event(t: Transition) -> Result<LedgerEvent, DecodeError> {
    if t.inputs@.len() < 1 {
        Err(DecodeError::Inputs)
    } else {
        match public_u128(t.inputs@[0]) {
            Some(Ok(node_id)) => Ok(LedgerEvent::OpenGame { node_id }),
            Some(Err(e)) => Err(e),
            None => Ok(LedgerEvent::Ignored),
        }
    }
}

/// The event of a committing transition: the child is read from the second
/// input, the parent from the first where that is a public `u128`.
pub open spec fn move_event(t: Transition) -> Result<LedgerEvent, DecodeError> {
    if t.inputs@.len() < 2 {
        Err(DecodeError::Inputs)
    } else {
        match public_u128(t.inputs@[1]) {
            Some(Ok(child)) => Ok(
                LedgerEvent::MoveCommitted {
                    child,
                    parent: match public_u128(t.inputs@[0]) {
                        Some(Ok(parent)) => Some(parent),
                        _ => None,
                    },
                },
            ),
            Some(Err(e)) => Err(e),
            None => Ok(LedgerEvent::Ignored),
        }
    }
}

/// The event of a transition.
pub open spec fn event_of(t: Transition) -> Result<LedgerEvent, DecodeError> {
    match kind_of(t.function_name@) {
        EventKind::Vote => vote_event(t),
        EventKind::MoveToNext => move_event(t),
        EventKind::OpenGame => open_event(t),
        EventKind::Ignored => Ok(LedgerEvent::Ignored),
    }
}

/// Reads the `u128` of a public input.
fn read_public_u128(input: &Input) -> (r: Option<Result<u128, DecodeError>>)
    ensures
        r == public_u128(*input),
{
    match input {
        Input::Public(Some(p)) => Some(handle_u128_plaintext(p)),
        _ => None,
    }
}

impl Mori {
    /// Reads the vote of a vote transition.
    pub fn handle_vote(&self, t: &Transition) -> (r: Result<LedgerEvent, DecodeError>)
        ensures
            r == vote_event(*t),
    {
        if t.outputs.len() == 0 {
            return Ok(LedgerEvent::Ignored);
        }
        match &t.outputs[0] {
            Output::Owned(record) => match Vote::try_from_record(record) {
                Ok(vote) => Ok(LedgerEvent::Vote(vote)),
                Err(e) => Err(e),
            },
            Output::Sealed => Err(DecodeError::Sealed),
            Output::Other => Ok(LedgerEvent::Ignored),
        }
    }

    /// Reads the root of an opening transition.
    pub fn handle_open(&self, t: &Transition) -> (r: Result<LedgerEvent, DecodeError>)
        ensures
            r == open_event(*t),
    {
        if t.inputs.len() < 1 {
            return Err(DecodeError::Inputs);
        }
        match read_public_u128(&t.inputs[0]) {
            Some(Ok(node_id)) => Ok(LedgerEvent::OpenGame { node_id }),
            Some(Err(e)) => Err(e),
            None => Ok(LedgerEvent::Ignored),
        }
    }

    /// Reads the child and the parent of a committing transition.
    pub fn handle_move(&self, t: &Transition) -> (r: Result<LedgerEvent, DecodeError>)
        ensures
            r == move_event(*t),
    {
        if t.inputs.len() < 2 {
            return Err(DecodeError::Inputs);
        }
        match read_public_u128(&t.inputs[1]) {
            Some(Ok(child)) => {
                let parent = match read_public_u128(&t.inputs[0]) {
                    Some(Ok(parent)) => Some(parent),
                    _ => None,
                };
                Ok(LedgerEvent::MoveCommitted { child, parent })
            },
            Some(Err(e)) => Err(e),
            None => Ok(LedgerEvent::Ignored),
        }
    }

    /// Reads the event of a transition.
    pub fn decode_event(&self, t: &Transition) -> (r: Result<LedgerEvent, DecodeError>)
        ensures
            r == event_of(*t),
    {
        match classify(t.function_name.as_str()) {
            EventKind::Vote => self.handle_vote(t),
            EventKind::MoveToNext => self.handle_move(t),
            EventKind::OpenGame => self.handle_open(t),
            EventKind::Ignored => Ok(LedgerEvent::Ignored),
        }
    }
}

/// The events of a sequence of transitions, each read on its own.
pub open spec fn events_of(ts: Seq<Transition>) -> Seq<Result<LedgerEvent, DecodeError>> {
    Seq::new(ts.len(), |i: int| event_of(ts[i]))
}

/// The node that the ledger and the move resolver describe together: the
/// node as the ledger stores it, with the legal moves that the resolver
/// reports.
pub open spec fn remote_node(value: Value, resp: RestResponse, expected_voters: u32) -> Result<
    NodeView,
    MoriError,
> {
    match value {
        Value::Plaintext(p) => match node_of_plaintext(p, expected_voters) {
            Ok(n) => Ok(NodeView { valid_movs: resp.valid_moves@, ..n }),
            Err(e) => Err(MoriError::Decode(e)),
        },
        _ => Err(MoriError::Decode(DecodeError::Value)),
    }
}

/// What taking in a block led to.
#[derive(Clone, Debug, PartialEq)]
pub struct BlockOutcome {
    /// The events of the selected transitions, in block order; an error
    /// stands in the place of a transition that could not be read.
    pub events: Vec<Result<LedgerEvent, DecodeError>>,
    /// What the block did to the pool.
    pub delta: PoolDelta,
}

/// What taking in the blocks of a batch led to.
#[derive(Clone, Debug, PartialEq)]
pub struct BatchOutcome {
    /// The events of all blocks, in ledger order.
    pub events: Vec<Result<LedgerEvent, DecodeError>>,
    /// What each block did to the pool, in ledger order.
    pub deltas: Vec<PoolDelta>,
}

/// Whether `delta` tells what `block` does to a pool.
pub open spec fn mirrors(delta: PoolDelta, block: Block) -> bool {
    &&& texts(delta.spent@) == spent_serials(block)
    &&& fee_views(delta.entered@) == without_spent(created_records(block), spent_serials(block))
}

/// What each of `blocks` reports spent and created.
pub open spec fn block_reports(blocks: Seq<Block>) -> Seq<(Seq<Seq<char>>, Seq<FeeView>)> {
    Seq::new(blocks.len(), |i: int| (spent_serials(blocks[i]), created_records(blocks[i])))
}

/// The events of the transitions that `filter` selects from `blocks`, in
/// ledger order.
pub open spec fn batch_events(filter: TransitionFilter, blocks: Seq<Block>) -> Seq<
    Result<LedgerEvent, DecodeError>,
>
    decreases blocks.len(),
{
    if blocks.len() == 0 {
        Seq::empty()
    } else {
        batch_events(filter, blocks.drop_last()) + events_of(filter.selected(blocks.last()))
    }
}

/// What offering a vote to a node led to.
#[derive(Clone, Debug)]
pub struct VoteOutcome {
    /// The node to write back to the store, with the vote if it was taken.
    pub node: GameNode,
    /// The request to send to the move resolver, if the vote decided the
    /// node.
    pub request: Option<MovRequest>,
}

impl Mori {
    /// Takes in one block: the pool observes it, the filter selects its
    /// transitions, and each selected transition is read. A transition that
    /// cannot be read yields an error in its place and does not affect the
    /// others.
    pub fn process_block(&self, pool: &mut FeePool, block: &Block) -> (r: BlockOutcome)
        ensures
            final(pool)@ == observed(old(pool)@, spent_serials(*block), created_records(*block)),
            r.events@ == events_of(self.filter.selected(*block)),
            mirrors(r.delta, *block),
    {
        let delta = pool.observe(block);
        let selected = self.filter.filter_block(block);
        let mut out: Vec<Result<LedgerEvent, DecodeError>> = Vec::new();
        let mut i: usize = 0;
        while i < selected.len()
            invariant
                i <= selected.len(),
                out@.len() == i,
                forall|j: int| 0 <= j < i ==> out@[j] == event_of(*selected@[j]),
            decreases selected.len() - i,
        {
            out.push(self.decode_event(selected[i]));
            i = i + 1;
        }
        assert forall|j: int| 0 <= j < out@.len() implies out@[j] == events_of(
            self.filter.selected(*block),
        )[j] by {
            assert(targets(selected@)[j] == *selected@[j]);
        }
        assert(out@ =~= events_of(self.filter.selected(*block)));
        BlockOutcome { events: out, delta }
    }

    /// Takes in the blocks of a batch, in order: the pool observes every
    /// block, and the events of all selected transitions are read. The
    /// events are for the caller to act on once the batch has been taken
    /// in.
    pub fn process_batch(&self, pool: &mut FeePool, blocks: &Vec<Block>) -> (r: BatchOutcome)
        ensures
            final(pool)@ == observed_all(old(pool)@, block_reports(blocks@)),
            r.events@ == batch_events(self.filter, blocks@),
            r.deltas@.len() == blocks@.len(),
            forall|i: int| 0 <= i < blocks@.len() ==> mirrors(#[trigger] r.deltas@[i], blocks@[i]),
    {
        let ghost start = pool@;
        let mut events: Vec<Result<LedgerEvent, DecodeError>> = Vec::new();
        let mut deltas: Vec<PoolDelta> = Vec::new();
        let mut i: usize = 0;
        proof {
            assert(block_reports(blocks@.take(0)) =~= Seq::empty());
            assert(blocks@.take(0) =~= Seq::empty());
        }
        while i < blocks.len()
            invariant
                i <= blocks.len(),
                pool@ == observed_all(start, block_reports(blocks@.take(i as int))),
                events@ == batch_events(self.filter, blocks@.take(i as int)),
                deltas@.len() == i,
                forall|j: int| 0 <= j < i ==> mirrors(#[trigger] deltas@[j], blocks@[j]),
            decreases blocks.len() - i,
        {
            proof {
                let next = blocks@.take(i as int + 1);
                assert(next.drop_last() =~= blocks@.take(i as int));
                assert(next.last() == blocks@[i as int]);
                assert(block_reports(next).drop_last() =~= block_reports(blocks@.take(i as int)));
                assert(block_reports(next).last() == (
                    spent_serials(blocks@[i as int]),
                    created_records(blocks@[i as int]),
                ));
            }
            let outcome = self.process_block(pool, &blocks[i]);
            let mut found = outcome.events;
            events.append(&mut found);
            deltas.push(outcome.delta);
            i = i + 1;
        }
        assert(blocks@.take(blocks@.len() as int) =~= blocks@);
        BatchOutcome { events, deltas }
    }

    /// Offers a vote to the node that the store holds for it. A node that is
    /// not in the store is reported as not found. Otherwise the node is to be
    /// written back whether or not it took the vote, and a request for the
    /// successors goes out exactly if the vote decided the node. The request
    /// groups the accepted votes by move and lists each voter of a move once.
    pub fn apply_vote(&self, node: Option<GameNode>, vote: Vote) -> (r: Result<
        VoteOutcome,
        MoriError,
    >)
        ensures
            match node {
                None => r matches Err(e) && e == MoriError::NotFound,
                Some(n) => r matches Ok(out) && out.node@ == n@.after_vote(vote) && (match out.request {
                    Some(req) => n@.decides(vote) && req@ == (RequestView {
                        parent_id: n@.node_id,
                        votes: tally(n@.after_vote(vote).votes),
                    }) && distinct_voters(req@.votes),
                    None => !n@.decides(vote),
                }),
            },
    {
        match node {
            None => Err(MoriError::NotFound),
            Some(n) => {
                let mut n = n;
                let decided = n.check_and_add_vote(vote);
                let request = if decided {
                    Some(MovRequest::from_votes(&n))
                } else {
                    None
                };
                Ok(VoteOutcome { node: n, request })
            },
        }
    }

    /// Builds a node from what the ledger's mapping and the move resolver
    /// answered for its id.
    pub fn get_remote_node(&self, value: &Value, resp: RestResponse) -> (r: Result<
        GameNode,
        MoriError,
    >)
        ensures
            match r {
                Ok(node) => remote_node(*value, resp, self.expected_voters) == Ok::<
                    NodeView,
                    MoriError,
                >(node@),
                Err(e) => remote_node(*value, resp, self.expected_voters) == Err::<NodeView, MoriError>(
                    e,
                ),
            },
    {
        match value {
            Value::Plaintext(p) => match GameNode::from_plaintext(p, self.expected_voters) {
                Ok(node) => {
                    let mut node = node;
                    node.update_valid_movs(resp.valid_moves);
                    Ok(node)
                },
                Err(e) => Err(MoriError::Decode(e)),
            },
            _ => Err(MoriError::Decode(DecodeError::Value)),
        }
    }
}

} // verus!
