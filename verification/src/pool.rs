//! The pool of fee records: spendable records of this identity, oldest
//! first, fed by what the ledger reports created and spent.
//!
//! The pool has one consumer. Nothing is reserved: a record that
//! `pop_front` hands out has left the pool.

use vstd::prelude::*;

use crate::error::MoriError;
use crate::ledger::{
    find, lookup, Block, Entry, Input, Literal, Output, Plaintext, Record, Transaction, Transition,
};
use crate::text::{has_text, texts};
use crate::FEE_NUM;

verus! {

/// A record that can pay the fee of one submission.
#[derive(Clone, Debug, PartialEq)]
pub struct FeeRecord {
    pub serial_number: String,
    /// The value that the record holds, in microcredits.
    pub value: u64,
}

/// What a fee record is, as mathematics.
pub struct FeeView {
    pub serial: Seq<char>,
    pub value: u64,
}

impl View for FeeRecord {
    type V = FeeView;

    open spec fn view(&self) -> FeeView {
        FeeView { serial: self.serial_number@, value: self.value }
    }
}

/// The views of a sequence of fee records.
pub open spec fn fee_views(records: Seq<FeeRecord>) -> Seq<FeeView> {
    Seq::new(records.len(), |i: int| records[i]@)
}

/// Whether some record of `pool` has the serial number `serial`.
pub open spec fn has_serial(pool: Seq<FeeView>, serial: Seq<char>) -> bool {
    exists|i: int| 0 <= i < pool.len() && #[trigger] pool[i].serial == serial
}

/// No serial number occurs twice, and every record can pay a fee.
pub open spec fn pool_wf(pool: Seq<FeeView>) -> bool {
    &&& forall|i: int, j: int|
        0 <= i < j < pool.len() ==> #[trigger] pool[i].serial != #[trigger] pool[j].serial
    &&& forall|i: int| 0 <= i < pool.len() ==> #[trigger] pool[i].value >= FEE_NUM
}

/// The pool without the records whose serial number is among `spent`.
pub open spec fn without_spent(pool: Seq<FeeView>, spent: Seq<Seq<char>>) -> Seq<FeeView> {
    pool.filter(|r: FeeView| !spent.contains(r.serial))
}

/// The pool with `record` stored under its serial number: in the place of
/// the record that had that serial number, or else at the end.
pub open spec fn upsert(pool: Seq<FeeView>, record: FeeView) -> Seq<FeeView> {
    if has_serial(pool, record.serial) {
        Seq::new(
            pool.len(),
            |i: int|
                if pool[i].serial == record.serial {
                    record
                } else {
                    pool[i]
                },
        )
    } else {
        pool.push(record)
    }
}

/// The pool after each of `created` that is not among `spent` has been
/// stored, in order.
pub open spec fn with_created(
    pool: Seq<FeeView>,
    created: Seq<FeeView>,
    spent: Seq<Seq<char>>,
) -> Seq<FeeView>
    decreases created.len(),
{
    if created.len() == 0 {
        pool
    } else {
        let before = with_created(pool, created.drop_last(), spent);
        if spent.contains(created.last().serial) {
            before
        } else {
            upsert(before, created.last())
        }
    }
}

/// The pool after a block that reports `spent` and `created`: the spent
/// records are gone, also those that the same block created.
pub open spec fn observed(
    pool: Seq<FeeView>,
    spent: Seq<Seq<char>>,
    created: Seq<FeeView>,
) -> Seq<FeeView> {
    with_created(without_spent(pool, spent), created, spent)
}

/// The serial numbers that the inputs of a transition spend.
pub open spec fn spent_by_inputs(inputs: Seq<Input>) -> Seq<Seq<char>>
    decreases inputs.len(),
{
    if inputs.len() == 0 {
        Seq::empty()
    } else {
        let before = spent_by_inputs(inputs.drop_last());
        match inputs.last() {
            Input::Record(serial) => before.push(serial@),
            _ => before,
        }
    }
}

/// The value of a record that holds microcredits: that of its private
/// entry `microcredits`, a `u64`.
pub open spec fn microcredits_of(record: Record) -> Option<u64> {
    match lookup(record.data@, "microcredits"@) {
        Some(Entry::Private(Plaintext::Literal(Literal::U64(v)))) => Some(v),
        _ => None,
    }
}

/// The fee records among the outputs of a transition: the owned records
/// that hold at least the fee in microcredits.
pub open spec fn created_by_outputs(outputs: Seq<Output>) -> Seq<FeeView>
    decreases outputs.len(),
{
    if outputs.len() == 0 {
        Seq::empty()
    } else {
        let before = created_by_outputs(outputs.drop_last());
        match outputs.last() {
            Output::Owned(record) => match microcredits_of(record) {
                Some(v) => if v >= FEE_NUM {
                    before.push(FeeView { serial: record.serial_number@, value: v })
                } else {
                    before
                },
                None => before,
            },
            _ => before,
        }
    }
}

/// The serial numbers that a sequence of transitions spends.
pub open spec fn spent_by(ts: Seq<Transition>) -> Seq<Seq<char>>
    decreases ts.len(),
{
    if ts.len() == 0 {
        Seq::empty()
    } else {
        spent_by(ts.drop_last()) + spent_by_inputs(ts.last().inputs@)
    }
}

/// The fee records that a sequence of transitions creates.
pub open spec fn created_by(ts: Seq<Transition>) -> Seq<FeeView>
    decreases ts.len(),
{
    if ts.len() == 0 {
        Seq::empty()
    } else {
        created_by(ts.drop_last()) + created_by_outputs(ts.last().outputs@)
    }
}

/// The serial numbers that a sequence of transactions spends. Rejected
/// transactions count: what they report spent is spent.
pub open spec fn spent_in(txs: Seq<Transaction>) -> Seq<Seq<char>>
    decreases txs.len(),
{
    if txs.len() == 0 {
        Seq::empty()
    } else {
        spent_in(txs.drop_last()) + spent_by(txs.last().transitions@)
    }
}

/// The fee records that a sequence of transactions creates.
pub open spec fn created_in(txs: Seq<Transaction>) -> Seq<FeeView>
    decreases txs.len(),
{
    if txs.len() == 0 {
        Seq::empty()
    } else {
        created_in(txs.drop_last()) + created_by(txs.last().transitions@)
    }
}

/// The serial numbers that a block reports spent, in block order.
pub open spec fn spent_serials(block: Block) -> Seq<Seq<char>> {
    spent_in(block.transactions@)
}

/// The fee records that a block reports created for this identity, in
/// block order.
pub open spec fn created_records(block: Block) -> Seq<FeeView> {
    created_in(block.transactions@)
}

/// Every created record can pay a fee.
pub open spec fn all_funded(records: Seq<FeeView>) -> bool {
    forall|i: int| 0 <= i < records.len() ==> #[trigger] records[i].value >= FEE_NUM
}

/// No record of `pool` has a serial number among `spent`.
pub open spec fn none_spent(pool: Seq<FeeView>, spent: Seq<Seq<char>>) -> bool {
    forall|i: int| 0 <= i < pool.len() ==> !spent.contains(#[trigger] pool[i].serial)
}

/// What removing the spent records does: the records that stay are those
/// of the pool that are not spent, and a well-formed pool stays so.
pub proof fn lemma_without_spent(pool: Seq<FeeView>, spent: Seq<Seq<char>>)
    ensures
        none_spent(without_spent(pool, spent), spent),
        forall|s: Seq<char>| #[trigger]
            has_serial(without_spent(pool, spent), s) <==> has_serial(pool, s) && !spent.contains(
                s,
            ),
        pool_wf(pool) ==> pool_wf(without_spent(pool, spent)),
    decreases pool.len(),
{
    reveal(Seq::filter);
    let pred = |r: FeeView| !spent.contains(r.serial);
    let out = without_spent(pool, spent);
    if pool.len() == 0 {
    } else {
        let init = pool.drop_last();
        let last = pool.last();
        let prev = without_spent(init, spent);
        lemma_without_spent(init, spent);
        assert(out == if pred(last) {
            prev.push(last)
        } else {
            prev
        });
        assert(none_spent(out, spent));
        assert forall|s: Seq<char>| #[trigger]
            has_serial(out, s) <==> has_serial(pool, s) && !spent.contains(s) by {
            if has_serial(out, s) {
                let i = choose|i: int| 0 <= i < out.len() && #[trigger] out[i].serial == s;
                if i < prev.len() {
                    assert(prev[i].serial == s);
                    assert(has_serial(prev, s));
                    let j = choose|j: int| 0 <= j < init.len() && #[trigger] init[j].serial == s;
                    assert(pool[j].serial == s);
                } else {
                    assert(pool[pool.len() - 1].serial == s);
                }
            }
            if has_serial(pool, s) && !spent.contains(s) {
                let j = choose|j: int| 0 <= j < pool.len() && #[trigger] pool[j].serial == s;
                if j < init.len() {
                    assert(init[j].serial == s);
                    assert(has_serial(init, s));
                    assert(has_serial(prev, s));
                    let i = choose|i: int| 0 <= i < prev.len() && #[trigger] prev[i].serial == s;
                    assert(out[i].serial == s);
                } else {
                    assert(out[out.len() - 1].serial == s);
                }
            }
        }
        if pool_wf(pool) {
            assert(pool_wf(init)) by {
                assert forall|i: int, j: int| 0 <= i < j < init.len() implies #[trigger] init[i].serial
                    != #[trigger] init[j].serial by {
                    assert(pool[i].serial != pool[j].serial);
                }
                assert forall|i: int| 0 <= i < init.len() implies #[trigger] init[i].value
                    >= FEE_NUM by {
                    assert(pool[i].value >= FEE_NUM);
                }
            }
            if pred(last) {
                assert(!has_serial(init, last.serial)) by {
                    if has_serial(init, last.serial) {
                        let j = choose|j: int|
                            0 <= j < init.len() && #[trigger] init[j].serial == last.serial;
                        assert(pool[j].serial != pool[pool.len() - 1].serial);
                    }
                }
                assert(!has_serial(prev, last.serial));
                assert forall|i: int, j: int| 0 <= i < j < out.len() implies #[trigger] out[i].serial
                    != #[trigger] out[j].serial by {
                    if j < prev.len() {
                        assert(prev[i].serial != prev[j].serial);
                    } else {
                        assert(prev[i].serial == out[i].serial);
                    }
                }
                assert(pool[pool.len() - 1].value >= FEE_NUM);
            }
        }
    }
}

/// What storing a record does: its serial number is in the pool afterwards,
/// no other serial number comes or goes, and a well-formed pool stays so.
pub proof fn lemma_upsert(pool: Seq<FeeView>, record: FeeView)
    ensures
        forall|s: Seq<char>| #[trigger]
            has_serial(upsert(pool, record), s) <==> has_serial(pool, s) || s == record.serial,
        pool_wf(pool) && record.value >= FEE_NUM ==> pool_wf(upsert(pool, record)),
{
    let out = upsert(pool, record);
    assert forall|s: Seq<char>| #[trigger]
        has_serial(out, s) <==> has_serial(pool, s) || s == record.serial by {
        if has_serial(out, s) {
            let i = choose|i: int| 0 <= i < out.len() && #[trigger] out[i].serial == s;
            if i < pool.len() {
                assert(pool[i].serial == s || s == record.serial);
            }
        }
        if has_serial(pool, s) {
            let i = choose|i: int| 0 <= i < pool.len() && #[trigger] pool[i].serial == s;
            assert(out[i].serial == s);
        }
        if s == record.serial {
            if has_serial(pool, record.serial) {
                let i = choose|i: int|
                    0 <= i < pool.len() && #[trigger] pool[i].serial == record.serial;
                assert(out[i].serial == s);
            } else {
                assert(out[pool.len() as int].serial == s);
            }
        }
    }
    if pool_wf(pool) && record.value >= FEE_NUM {
        assert forall|i: int, j: int| 0 <= i < j < out.len() implies #[trigger] out[i].serial
            != #[trigger] out[j].serial by {
            if has_serial(pool, record.serial) {
                assert(out[i].serial == pool[i].serial);
                assert(out[j].serial == pool[j].serial);
            } else if j < pool.len() {
                assert(pool[i].serial != pool[j].serial);
            } else {
                assert(out[i].serial == pool[i].serial);
            }
        }
        assert forall|i: int| 0 <= i < out.len() implies #[trigger] out[i].value >= FEE_NUM by {
            if i < pool.len() {
                assert(pool[i].value >= FEE_NUM);
            }
        }
    }
}

/// What storing the created records does: a serial number is in the pool
/// afterwards only if it was there before or was created and not spent; no
/// spent record comes in; a well-formed pool stays so.
pub proof fn lemma_with_created(pool: Seq<FeeView>, created: Seq<FeeView>, spent: Seq<Seq<char>>)
    ensures
        forall|s: Seq<char>| #[trigger]
            has_serial(with_created(pool, created, spent), s) <==> has_serial(pool, s) || (
            has_serial(created, s) && !spent.contains(s)),
        none_spent(pool, spent) ==> none_spent(with_created(pool, created, spent), spent),
        pool_wf(pool) && all_funded(created) ==> pool_wf(with_created(pool, created, spent)),
    decreases created.len(),
{
    let out = with_created(pool, created, spent);
    if created.len() == 0 {
        assert forall|s: Seq<char>| !has_serial(created, s) by {}
    } else {
        let init = created.drop_last();
        let last = created.last();
        let before = with_created(pool, init, spent);
        lemma_with_created(pool, init, spent);
        lemma_upsert(before, last);
        assert forall|s: Seq<char>| has_serial(created, s) <==> has_serial(init, s) || s
            == last.serial by {
            if has_serial(created, s) {
                let i = choose|i: int| 0 <= i < created.len() && #[trigger] created[i].serial == s;
                if i < init.len() {
                    assert(init[i].serial == s);
                }
            }
            if has_serial(init, s) {
                let i = choose|i: int| 0 <= i < init.len() && #[trigger] init[i].serial == s;
                assert(created[i].serial == s);
            }
            if s == last.serial {
                assert(created[created.len() - 1].serial == s);
            }
        }
        if none_spent(pool, spent) {
            assert forall|i: int| 0 <= i < out.len() implies !spent.contains(
                #[trigger] out[i].serial,
            ) by {
                assert(has_serial(out, out[i].serial));
                if has_serial(before, out[i].serial) {
                    let j = choose|j: int|
                        0 <= j < before.len() && #[trigger] before[j].serial == out[i].serial;
                }
            }
        }
        if pool_wf(pool) && all_funded(created) {
            assert(all_funded(init)) by {
                assert forall|i: int| 0 <= i < init.len() implies #[trigger] init[i].value
                    >= FEE_NUM by {
                    assert(created[i].value >= FEE_NUM);
                }
            }
            assert(created[created.len() - 1].value >= FEE_NUM);
        }
    }
}

/// What taking the oldest record does to a pool: the record taken, if
/// there is one, and the pool that is left.
pub open spec fn popped(pool: Seq<FeeView>) -> (Option<FeeView>, Seq<FeeView>) {
    if pool.len() == 0 {
        (None, pool)
    } else {
        (Some(pool[0]), pool.drop_first())
    }
}

/// The pool that is left after the oldest record has been taken `n` times.
pub open spec fn popped_times(pool: Seq<FeeView>, n: nat) -> Seq<FeeView>
    decreases n,
{
    if n == 0 {
        pool
    } else {
        popped(popped_times(pool, (n - 1) as nat)).1
    }
}

/// Taking records only shortens the pool from the front.
pub proof fn lemma_popped_times(pool: Seq<FeeView>, n: nat)
    ensures
        popped_times(pool, n) == if n <= pool.len() {
            pool.skip(n as int)
        } else {
            Seq::empty()
        },
    decreases n,
{
    if n > 0 {
        lemma_popped_times(pool, (n - 1) as nat);
        if n <= pool.len() {
            assert(pool.skip(n - 1).drop_first() =~= pool.skip(n as int));
        } else if n - 1 == pool.len() {
            assert(pool.skip(n - 1) =~= Seq::empty());
        }
    }
}

/// After a block has been observed, no record that the block reports spent
/// is in the pool, whether it was there before or the block itself created
/// it; and however many records are then taken from the pool, none of them
/// is one that the block reports spent.
pub proof fn lemma_spent_never_popped(
    pool: Seq<FeeView>,
    spent: Seq<Seq<char>>,
    created: Seq<FeeView>,
    taken: nat,
)
    ensures
        none_spent(observed(pool, spent, created), spent),
        forall|s: Seq<char>| spent.contains(s) ==> !#[trigger] has_serial(
            observed(pool, spent, created),
            s,
        ),
        match popped(popped_times(observed(pool, spent, created), taken)).0 {
            Some(record) => !spent.contains(record.serial),
            None => true,
        },
{
    lemma_without_spent(pool, spent);
    lemma_with_created(without_spent(pool, spent), created, spent);
    let out = observed(pool, spent, created);
    assert forall|s: Seq<char>| spent.contains(s) implies !#[trigger] has_serial(out, s) by {
        if has_serial(out, s) {
            let i = choose|i: int| 0 <= i < out.len() && #[trigger] out[i].serial == s;
        }
    }
    lemma_popped_times(out, taken);
    if taken < out.len() {
        assert(out.skip(taken as int)[0] == out[taken as int]);
    }
}

/// Observing a block keeps the pool well-formed.
pub proof fn lemma_observed_wf(pool: Seq<FeeView>, spent: Seq<Seq<char>>, created: Seq<FeeView>)
    requires
        pool_wf(pool),
        all_funded(created),
    ensures
        pool_wf(observed(pool, spent, created)),
{
    lemma_without_spent(pool, spent);
    lemma_with_created(without_spent(pool, spent), created, spent);
}

/// The pool after each of `blocks` has been observed in turn, each given
/// by what it reports spent and created.
pub open spec fn observed_all(
    pool: Seq<FeeView>,
    blocks: Seq<(Seq<Seq<char>>, Seq<FeeView>)>,
) -> Seq<FeeView>
    decreases blocks.len(),
{
    if blocks.len() == 0 {
        pool
    } else {
        observed(observed_all(pool, blocks.drop_last()), blocks.last().0, blocks.last().1)
    }
}

/// A serial number that one block of a pass reports spent is not in the
/// pool at the end of the pass, provided that no later block of the pass
/// creates a record with that serial number. It does not matter whether the
/// record was in the pool before the pass or came in during it.
pub proof fn lemma_spent_stays_out(
    pool: Seq<FeeView>,
    blocks: Seq<(Seq<Seq<char>>, Seq<FeeView>)>,
    at: int,
    serial: Seq<char>,
)
    requires
        0 <= at < blocks.len(),
        blocks[at].0.contains(serial),
        forall|later: int| at < later < blocks.len() ==> !has_serial(#[trigger] blocks[later].1, serial),
    ensures
        !has_serial(observed_all(pool, blocks), serial),
    decreases blocks.len(),
{
    let init = blocks.drop_last();
    let before = observed_all(pool, init);
    let (spent, created) = blocks.last();
    if at == blocks.len() - 1 {
        lemma_spent_never_popped(before, spent, created, 0);
    } else {
        assert forall|later: int| at < later < init.len() implies !has_serial(
            #[trigger] init[later].1,
            serial,
        ) by {
            assert(init[later] == blocks[later]);
        }
        lemma_spent_stays_out(pool, init, at, serial);
        lemma_without_spent(before, spent);
        lemma_with_created(without_spent(before, spent), created, spent);
        assert(blocks[blocks.len() - 1].1 == created);
    }
}

/// What observing a block did to the pool, for whoever keeps a copy of the
/// pool elsewhere: removing `spent` and then storing `entered`, each in
/// order, does the same to the copy.
#[derive(Clone, Debug, PartialEq)]
pub struct PoolDelta {
    /// The serial numbers that the block reports spent.
    pub spent: Vec<String>,
    /// The fee records that the block reports created and not spent.
    pub entered: Vec<FeeRecord>,
}

/// The fee records of this identity that have not been spent, oldest first.
/// No serial number occurs twice, and every record holds at least the fee.
#[derive(Debug)]
pub struct FeePool {
    records: Vec<FeeRecord>,
}

impl View for FeePool {
    type V = Seq<FeeView>;

    closed spec fn view(&self) -> Seq<FeeView> {
        fee_views(self.records@)
    }
}

/// The index of the record with the serial number `serial`, if there is one.
fn position(records: &Vec<FeeRecord>, serial: &String) -> (r: Option<usize>)
    ensures
        match r {
            Some(k) => k < records@.len() && records@[k as int]@.serial == serial@,
            None => !has_serial(fee_views(records@), serial@),
        },
{
    let mut i: usize = 0;
    while i < records.len()
        invariant
            i <= records.len(),
            forall|j: int| 0 <= j < i ==> fee_views(records@)[j].serial != serial@,
        decreases records.len() - i,
    {
        if records[i].serial_number == *serial {
            return Some(i);
        }
        i = i + 1;
    }
    None
}

/// Appends to `out` the serial numbers that `inputs` spend.
fn push_spent_inputs(inputs: &Vec<Input>, out: &mut Vec<String>)
    ensures
        texts(final(out)@) == texts(old(out)@) + spent_by_inputs(inputs@),
{
    let mut i: usize = 0;
    assert(inputs@.take(0) =~= Seq::empty());
    assert(texts(out@) =~= texts(old(out)@) + spent_by_inputs(inputs@.take(0)));
    while i < inputs.len()
        invariant
            i <= inputs.len(),
            texts(out@) == texts(old(out)@) + spent_by_inputs(inputs@.take(i as int)),
        decreases inputs.len() - i,
    {
        proof {
            assert(inputs@.take(i as int + 1).drop_last() =~= inputs@.take(i as int));
            assert(inputs@.take(i as int + 1).last() == inputs@[i as int]);
        }
        match &inputs[i] {
            Input::Record(serial) => {
                let ghost before = out@;
                out.push(serial.clone());
                assert(texts(out@) =~= texts(before).push(serial@));
                assert(texts(out@) =~= texts(old(out)@) + spent_by_inputs(
                    inputs@.take(i as int + 1),
                ));
            },
            _ => {},
        }
        i = i + 1;
    }
    assert(inputs@.take(inputs@.len() as int) =~= inputs@);
}

/// The value of a record that holds microcredits.
fn microcredits(record: &Record) -> (r: Option<u64>)
    ensures
        r == microcredits_of(*record),
{
    match find(&record.data, "microcredits") {
        Some(Entry::Private(Plaintext::Literal(Literal::U64(v)))) => Some(*v),
        _ => None,
    }
}

/// Appends to `out` the fee records among `outputs`.
fn push_created_outputs(outputs: &Vec<Output>, out: &mut Vec<FeeRecord>)
    ensures
        fee_views(final(out)@) == fee_views(old(out)@) + created_by_outputs(outputs@),
{
    let mut i: usize = 0;
    assert(outputs@.take(0) =~= Seq::empty());
    assert(fee_views(out@) =~= fee_views(old(out)@) + created_by_outputs(outputs@.take(0)));
    while i < outputs.len()
        invariant
            i <= outputs.len(),
            fee_views(out@) == fee_views(old(out)@) + created_by_outputs(outputs@.take(i as int)),
        decreases outputs.len() - i,
    {
        proof {
            assert(outputs@.take(i as int + 1).drop_last() =~= outputs@.take(i as int));
            assert(outputs@.take(i as int + 1).last() == outputs@[i as int]);
        }
        match &outputs[i] {
            Output::Owned(record) => {
                match microcredits(record) {
                    Some(v) => {
                        if v >= FEE_NUM {
                            let ghost before = out@;
                            let ghost view = FeeView { serial: record.serial_number@, value: v };
                            out.push(
                                FeeRecord { serial_number: record.serial_number.clone(), value: v },
                            );
                            assert(fee_views(out@) =~= fee_views(before).push(view));
                            assert(fee_views(out@) =~= fee_views(old(out)@) + created_by_outputs(
                                outputs@.take(i as int + 1),
                            ));
                        }
                    },
                    None => {},
                }
            },
            _ => {},
        }
        i = i + 1;
    }
    assert(outputs@.take(outputs@.len() as int) =~= outputs@);
}

/// The serial numbers that `block` reports spent, in block order.
pub fn spent_of(block: &Block) -> (r: Vec<String>)
    ensures
        texts(r@) == spent_serials(*block),
{
    let mut out: Vec<String> = Vec::new();
    let txs = &block.transactions;
    let mut i: usize = 0;
    assert(txs@.take(0) =~= Seq::empty());
    assert(texts(out@) =~= spent_in(txs@.take(0)));
    while i < txs.len()
        invariant
            i <= txs.len(),
            texts(out@) == spent_in(txs@.take(i as int)),
        decreases txs.len() - i,
    {
        let ts = &txs[i].transitions;
        let ghost base = texts(out@);
        let mut j: usize = 0;
        assert(ts@.take(0) =~= Seq::empty());
        assert(texts(out@) =~= base + spent_by(ts@.take(0)));
        while j < ts.len()
            invariant
                j <= ts.len(),
                texts(out@) == base + spent_by(ts@.take(j as int)),
            decreases ts.len() - j,
        {
            proof {
                assert(ts@.take(j as int + 1).drop_last() =~= ts@.take(j as int));
                assert(ts@.take(j as int + 1).last() == ts@[j as int]);
            }
            push_spent_inputs(&ts[j].inputs, &mut out);
            assert(texts(out@) =~= base + spent_by(ts@.take(j as int + 1)));
            j = j + 1;
        }
        proof {
            assert(ts@.take(ts@.len() as int) =~= ts@);
            assert(txs@.take(i as int + 1).drop_last() =~= txs@.take(i as int));
            assert(txs@.take(i as int + 1).last() == txs@[i as int]);
        }
        i = i + 1;
    }
    assert(txs@.take(txs@.len() as int) =~= txs@);
    out
}

/// The fee records that `block` reports created for this identity, in
/// block order.
pub fn created_of(block: &Block) -> (r: Vec<FeeRecord>)
    ensures
        fee_views(r@) == created_records(*block),
{
    let mut out: Vec<FeeRecord> = Vec::new();
    let txs = &block.transactions;
    let mut i: usize = 0;
    assert(txs@.take(0) =~= Seq::empty());
    assert(fee_views(out@) =~= created_in(txs@.take(0)));
    while i < txs.len()
        invariant
            i <= txs.len(),
            fee_views(out@) == created_in(txs@.take(i as int)),
        decreases txs.len() - i,
    {
        let ts = &txs[i].transitions;
        let ghost base = fee_views(out@);
        let mut j: usize = 0;
        assert(ts@.take(0) =~= Seq::empty());
        assert(fee_views(out@) =~= base + created_by(ts@.take(0)));
        while j < ts.len()
            invariant
                j <= ts.len(),
                fee_views(out@) == base + created_by(ts@.take(j as int)),
            decreases ts.len() - j,
        {
            proof {
                assert(ts@.take(j as int + 1).drop_last() =~= ts@.take(j as int));
                assert(ts@.take(j as int + 1).last() == ts@[j as int]);
            }
            push_created_outputs(&ts[j].outputs, &mut out);
            assert(fee_views(out@) =~= base + created_by(ts@.take(j as int + 1)));
            j = j + 1;
        }
        proof {
            assert(ts@.take(ts@.len() as int) =~= ts@);
            assert(txs@.take(i as int + 1).drop_last() =~= txs@.take(i as int));
            assert(txs@.take(i as int + 1).last() == txs@[i as int]);
        }
        i = i + 1;
    }
    assert(txs@.take(txs@.len() as int) =~= txs@);
    out
}

/// Storing the records that a block created and did not spend, in order,
/// is what `with_created` does.
pub proof fn lemma_with_created_is_upserts(
    pool: Seq<FeeView>,
    created: Seq<FeeView>,
    spent: Seq<Seq<char>>,
)
    ensures
        with_created(pool, created, spent) == with_created(
            pool,
            without_spent(created, spent),
            Seq::empty(),
        ),
    decreases created.len(),
{
    let none = Seq::<Seq<char>>::empty();
    if created.len() == 0 {
        reveal(Seq::filter);
    } else {
        let init = created.drop_last();
        let last = created.last();
        lemma_with_created_is_upserts(pool, init, spent);
        assert(init.push(last) =~= created);
        lemma_without_spent_push(init, last, spent);
        if !spent.contains(last.serial) {
            let kept = without_spent(init, spent);
            assert(kept.push(last).drop_last() =~= kept);
        }
    }
}

/// Storing a record at the end of a pool, seen through the spent filter.
proof fn lemma_without_spent_push(pool: Seq<FeeView>, record: FeeView, spent: Seq<Seq<char>>)
    ensures
        without_spent(pool.push(record), spent) == if spent.contains(record.serial) {
            without_spent(pool, spent)
        } else {
            without_spent(pool, spent).push(record)
        },
{
    pool.lemma_filter_push(record, |r: FeeView| !spent.contains(r.serial));
}

/// Every record that transactions create for the pool can pay a fee.
pub proof fn lemma_created_funded(txs: Seq<Transaction>)
    ensures
        all_funded(created_in(txs)),
    decreases txs.len(),
{
    if txs.len() > 0 {
        lemma_created_funded(txs.drop_last());
        lemma_created_by_funded(txs.last().transitions@);
    }
}

/// Every record that transitions create for the pool can pay a fee.
proof fn lemma_created_by_funded(ts: Seq<Transition>)
    ensures
        all_funded(created_by(ts)),
    decreases ts.len(),
{
    if ts.len() > 0 {
        lemma_created_by_funded(ts.drop_last());
        lemma_created_by_outputs_funded(ts.last().outputs@);
    }
}

/// Every record that outputs create for the pool can pay a fee.
proof fn lemma_created_by_outputs_funded(outputs: Seq<Output>)
    ensures
        all_funded(created_by_outputs(outputs)),
    decreases outputs.len(),
{
    if outputs.len() > 0 {
        lemma_created_by_outputs_funded(outputs.drop_last());
    }
}

impl FeePool {
    #[verifier::type_invariant]
    spec fn inv(self) -> bool {
        pool_wf(fee_views(self.records@))
    }

    /// An empty pool.
    pub fn new() -> (r: FeePool)
        ensures
            r@ == Seq::<FeeView>::empty(),
    {
        let r = FeePool { records: Vec::new() };
        assert(r@ =~= Seq::<FeeView>::empty());
        r
    }

    /// The number of records in the pool.
    pub fn len(&self) -> (n: usize)
        ensures
            n == self@.len(),
            pool_wf(self@),
    {
        proof {
            use_type_invariant(self);
        }
        self.records.len()
    }

    /// Whether the pool holds a record with the serial number `serial`.
    pub fn contains(&self, serial: &String) -> (r: bool)
        ensures
            r == has_serial(self@, serial@),
    {
        match position(&self.records, serial) {
            Some(k) => {
                assert(self@[k as int].serial == serial@);
                true
            },
            None => false,
        }
    }

    /// Stores a record under its serial number, unless it holds less than
    /// the fee. A record with a serial number that the pool already holds
    /// takes the place of the old one.
    pub fn insert(&mut self, record: FeeRecord) -> (stored: bool)
        ensures
            stored == (record.value >= FEE_NUM),
            final(self)@ == if stored {
                upsert(old(self)@, record@)
            } else {
                old(self)@
            },
            pool_wf(final(self)@),
    {
        proof {
            use_type_invariant(&*self);
        }
        if record.value < FEE_NUM {
            return false;
        }
        let mut records: Vec<FeeRecord> = Vec::new();
        std::mem::swap(&mut self.records, &mut records);
        store(&mut records, record);
        self.records = records;
        true
    }

    /// Takes in what a block reports: the records that it reports spent
    /// leave the pool, and the fee records that it reports created for this
    /// identity come in, unless the same block reports them spent.
    pub fn observe(&mut self, block: &Block) -> (delta: PoolDelta)
        ensures
            final(self)@ == observed(old(self)@, spent_serials(*block), created_records(*block)),
            none_spent(final(self)@, spent_serials(*block)),
            pool_wf(final(self)@),
            texts(delta.spent@) == spent_serials(*block),
            fee_views(delta.entered@) == without_spent(
                created_records(*block),
                spent_serials(*block),
            ),
    {
        proof {
            use_type_invariant(&*self);
        }
        let spent = spent_of(block);
        let created = created_of(block);
        let ghost pool = self@;
        let ghost gone = texts(spent@);
        let mut kept: Vec<FeeRecord> = Vec::new();
        let mut i: usize = 0;
        proof {
            assert(fee_views(self.records@.take(0)) =~= Seq::empty());
            lemma_without_spent(Seq::empty(), gone);
            assert(fee_views(kept@) =~= without_spent(Seq::empty(), gone));
        }
        while i < self.records.len()
            invariant
                i <= self.records.len(),
                gone == texts(spent@),
                fee_views(kept@) == without_spent(fee_views(self.records@.take(i as int)), gone),
            decreases self.records.len() - i,
        {
            let r = &self.records[i];
            let ghost before = kept@;
            proof {
                assert(fee_views(self.records@.take(i as int + 1)) =~= fee_views(
                    self.records@.take(i as int),
                ).push(r@));
                lemma_without_spent_push(fee_views(self.records@.take(i as int)), r@, gone);
            }
            if !has_text(&spent, &r.serial_number) {
                kept.push(FeeRecord { serial_number: r.serial_number.clone(), value: r.value });
                assert(fee_views(kept@) =~= fee_views(before).push(r@));
            }
            i = i + 1;
        }
        proof {
            assert(self.records@.take(self.records@.len() as int) =~= self.records@);
            lemma_without_spent(pool, gone);
            lemma_created_funded(block.transactions@);
        }
        let ghost base = without_spent(pool, gone);
        let ghost fresh = fee_views(created@);
        let mut entered: Vec<FeeRecord> = Vec::new();
        let mut j: usize = 0;
        proof {
            assert(fresh.take(0) =~= Seq::empty());
            assert(fee_views(entered@) =~= without_spent(Seq::empty(), gone));
        }
        while j < created.len()
            invariant
                j <= created.len(),
                gone == texts(spent@),
                fresh == fee_views(created@),
                all_funded(fresh),
                pool_wf(base),
                none_spent(base, gone),
                fee_views(kept@) == with_created(base, fresh.take(j as int), gone),
                fee_views(entered@) == without_spent(fresh.take(j as int), gone),
            decreases created.len() - j,
        {
            let c = &created[j];
            let ghost before = entered@;
            proof {
                assert(fresh.take(j as int + 1) =~= fresh.take(j as int).push(c@));
                lemma_without_spent_push(fresh.take(j as int), c@, gone);
                assert(fresh.take(j as int + 1).drop_last() =~= fresh.take(j as int));
                assert(fresh.take(j as int + 1).last() == c@);
                lemma_with_created(base, fresh.take(j as int), gone);
                assert(all_funded(fresh.take(j as int))) by {
                    assert forall|k: int| 0 <= k < j implies #[trigger] fresh.take(j as int)[k].value
                        >= FEE_NUM by {
                        assert(fresh[k].value >= FEE_NUM);
                    }
                }
                assert(fresh[j as int].value >= FEE_NUM);
            }
            if !has_text(&spent, &c.serial_number) {
                store(
                    &mut kept,
                    FeeRecord { serial_number: c.serial_number.clone(), value: c.value },
                );
                entered.push(FeeRecord { serial_number: c.serial_number.clone(), value: c.value });
                assert(fee_views(entered@) =~= fee_views(before).push(c@));
            }
            j = j + 1;
        }
        proof {
            assert(fresh.take(created@.len() as int) =~= fresh);
            lemma_with_created(base, fresh, gone);
        }
        self.records = kept;
        PoolDelta { spent, entered }
    }

    /// Takes the oldest record out of the pool, if there is one.
    pub fn pop_front(&mut self) -> (r: Result<FeeRecord, MoriError>)
        ensures
            final(self)@ == popped(old(self)@).1,
            match r {
                Ok(record) => popped(old(self)@).0 == Some(record@),
                Err(e) => popped(old(self)@).0 is None && e == MoriError::FundingExhausted,
            },
            pool_wf(final(self)@),
    {
        proof {
            use_type_invariant(&*self);
        }
        if self.records.len() == 0 {
            return Err(MoriError::FundingExhausted);
        }
        let mut records: Vec<FeeRecord> = Vec::new();
        std::mem::swap(&mut self.records, &mut records);
        let ghost before = fee_views(records@);
        let first = records.remove(0);
        proof {
            let after = fee_views(records@);
            assert(after =~= before.drop_first());
            assert forall|a: int, b: int| 0 <= a < b < after.len() implies #[trigger] after[a].serial
                != #[trigger] after[b].serial by {
                assert(before[a + 1].serial != before[b + 1].serial);
            }
            assert forall|a: int| 0 <= a < after.len() implies #[trigger] after[a].value
                >= FEE_NUM by {
                assert(before[a + 1].value >= FEE_NUM);
            }
        }
        self.records = records;
        Ok(first)
    }
}

/// Stores `record` in a well-formed sequence of records.
fn store(records: &mut Vec<FeeRecord>, record: FeeRecord)
    requires
        pool_wf(fee_views(old(records)@)),
        record.value >= FEE_NUM,
    ensures
        fee_views(final(records)@) == upsert(fee_views(old(records)@), record@),
        pool_wf(fee_views(final(records)@)),
{
    let ghost before = fee_views(records@);
    let ghost view = record@;
    proof {
        lemma_upsert(before, view);
    }
    match position(records, &record.serial_number) {
        Some(k) => {
            records.set(k, record);
            proof {
                assert(before[k as int].serial == view.serial);
                assert(has_serial(before, view.serial));
                assert forall|a: int| 0 <= a < before.len() implies #[trigger] fee_views(
                    records@,
                )[a] == upsert(before, view)[a] by {
                    if a != k as int {
                        if a < k {
                            assert(before[a].serial != before[k as int].serial);
                        } else {
                            assert(before[k as int].serial != before[a].serial);
                        }
                    }
                }
                assert(fee_views(records@) =~= upsert(before, view));
            }
        },
        None => {
            records.push(record);
            assert(fee_views(records@) =~= before.push(view));
        },
    }
}

} // verus!
