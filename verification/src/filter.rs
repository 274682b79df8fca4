//! Selection of the transitions of a block that concern this node.

use vstd::prelude::*;

use crate::ledger::{Block, Transaction, Transition};
use crate::text::{has_text, texts};

verus! {

/// Picks transitions by program and by function. A transition passes if its
/// program is one of the programs added and its function is one of the
/// functions added; with no program or no function added, nothing passes.
#[derive(Clone, Debug)]
pub struct TransitionFilter {
    program_ids: Vec<String>,
    function_names: Vec<String>,
}

/// The transitions of the accepted transactions, in block order.
pub open spec fn accepted_transitions(txs: Seq<Transaction>) -> Seq<Transition>
    decreases txs.len(),
{
    if txs.len() == 0 {
        Seq::empty()
    } else if txs.last().accepted {
        accepted_transitions(txs.drop_last()) + txs.last().transitions@
    } else {
        accepted_transitions(txs.drop_last())
    }
}

/// The values behind a sequence of references.
pub open spec fn targets<T>(refs: Seq<&T>) -> Seq<T> {
    Seq::new(refs.len(), |i: int| *refs[i])
}

impl TransitionFilter {
    /// The texts of the programs added so far, in the order of adding.
    pub closed spec fn programs(&self) -> Seq<Seq<char>> {
        texts(self.program_ids@)
    }

    /// The texts of the functions added so far, in the order of adding.
    pub closed spec fn functions(&self) -> Seq<Seq<char>> {
        texts(self.function_names@)
    }

    /// Whether a transition is of one of the programs and one of the functions.
    pub open spec fn passes(&self, t: Transition) -> bool {
        self.programs().contains(t.program_id@) && self.functions().contains(t.function_name@)
    }

    /// What `filter_block` selects: the transitions of the accepted
    /// transactions that pass, in block order.
    pub open spec fn selected(&self, block: Block) -> Seq<Transition> {
        accepted_transitions(block.transactions@).filter(|t: Transition| self.passes(t))
    }

    /// A filter that lets nothing pass.
    pub fn new() -> (r: TransitionFilter)
        ensures
            r.programs() == Seq::<Seq<char>>::empty(),
            r.functions() == Seq::<Seq<char>>::empty(),
    {
        let r = TransitionFilter { program_ids: Vec::new(), function_names: Vec::new() };
        assert(r.programs() =~= Seq::<Seq<char>>::empty());
        assert(r.functions() =~= Seq::<Seq<char>>::empty());
        r
    }

    /// Adds a program.
    pub fn add_program(self, program_id: String) -> (r: TransitionFilter)
        ensures
            r.programs() == self.programs().push(program_id@),
            r.functions() == self.functions(),
    {
        let mut r = self;
        r.program_ids.push(program_id);
        assert(r.programs() =~= self.programs().push(program_id@));
        r
    }

    /// Adds a function.
    pub fn add_function(self, function_name: String) -> (r: TransitionFilter)
        ensures
            r.programs() == self.programs(),
            r.functions() == self.functions().push(function_name@),
    {
        let mut r = self;
        r.function_names.push(function_name);
        assert(r.functions() =~= self.functions().push(function_name@));
        r
    }

    /// Whether a transition passes.
    pub fn accepts(&self, t: &Transition) -> (r: bool)
        ensures
            r == self.passes(*t),
    {
        has_text(&self.program_ids, &t.program_id) && has_text(
            &self.function_names,
            &t.function_name,
        )
    }

    /// The transitions of `block` that belong to an accepted transaction and
    /// pass, in block order.
    pub fn filter_block<'a>(&self, block: &'a Block) -> (r: Vec<&'a Transition>)
        ensures
            targets(r@) == self.selected(*block),
    {
        let ghost pred = |t: Transition| self.passes(t);
        let mut out: Vec<&'a Transition> = Vec::new();
        let mut i: usize = 0;
        assert(block.transactions@.take(0) =~= Seq::empty());
        assert(targets(out@) =~= accepted_transitions(block.transactions@.take(0)).filter(pred))
            by {
            reveal(Seq::filter);
        }
        while i < block.transactions.len()
            invariant
                i <= block.transactions.len(),
                pred == (|t: Transition| self.passes(t)),
                targets(out@) == accepted_transitions(block.transactions@.take(i as int)).filter(
                    pred,
                ),
            decreases block.transactions.len() - i,
        {
            let tx = &block.transactions[i];
            let ghost before = accepted_transitions(block.transactions@.take(i as int));
            proof {
                assert(block.transactions@.take(i as int + 1).drop_last()
                    =~= block.transactions@.take(i as int));
                assert(block.transactions@.take(i as int + 1).last() == *tx);
            }
            if tx.accepted {
                let mut j: usize = 0;
                assert(before + tx.transitions@.take(0) =~= before);
                while j < tx.transitions.len()
                    invariant
                        j <= tx.transitions.len(),
                        pred == (|t: Transition| self.passes(t)),
                        targets(out@) == (before + tx.transitions@.take(j as int)).filter(pred),
                    decreases tx.transitions.len() - j,
                {
                    let t = &tx.transitions[j];
                    proof {
                        let sofar = before + tx.transitions@.take(j as int);
                        sofar.lemma_filter_push(*t, pred);
                        assert(sofar.push(*t) =~= before + tx.transitions@.take(j as int + 1));
                    }
                    if self.accepts(t) {
                        out.push(t);
                        assert(targets(out@) =~= (before + tx.transitions@.take(
                            j as int,
                        )).filter(pred).push(*t));
                    }
                    j = j + 1;
                }
                assert(tx.transitions@.take(tx.transitions@.len() as int) =~= tx.transitions@);
            }
            i = i + 1;
        }
        assert(block.transactions@.take(block.transactions@.len() as int) =~= block.transactions@);
        out
    }
}

} // verus!
