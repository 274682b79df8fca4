use backend::cores::{GameNode, GameState, NodeEdge, RestResponse, Vote};
use backend::error::{DecodeError, MoriError};
use backend::ledger::{
    Block, Entry, Input, Literal, Output, Plaintext, Record, Transaction, Transition, Value,
};
use backend::pool::{FeePool, FeeRecord};
use backend::sync::{classify, EventKind, LedgerEvent, SyncPlan, BATCH_SIZE};
use backend::Mori;

fn mori() -> Mori {
    Mori::new(
        "testnet3",
        "APrivateKey1abc",
        "mori.aleo".to_string(),
        "http://resolver".to_string(),
        "secret".to_string(),
        4,
        8,
    )
}

fn public_u128(v: u128) -> Input {
    Input::Public(Some(Plaintext::Literal(Literal::U128(v))))
}

fn transition(function: &str, inputs: Vec<Input>, outputs: Vec<Output>) -> Transition {
    Transition {
        id: "at1".to_string(),
        program_id: "mori.aleo".to_string(),
        function_name: function.to_string(),
        inputs,
        outputs,
    }
}

fn vote_output(sender: &str, node_id: u128, mov: u8) -> Output {
    Output::Owned(Record {
        serial_number: "5field".to_string(),
        data: vec![
            (
                "sender".to_string(),
                Entry::Private(Plaintext::Literal(Literal::Address(sender.to_string()))),
            ),
            ("node_id".to_string(), Entry::Private(Plaintext::Literal(Literal::U128(node_id)))),
            ("mov".to_string(), Entry::Private(Plaintext::Literal(Literal::U8(mov)))),
        ],
    })
}

fn vote(sender: &str, node_id: u128, mov: u8) -> Vote {
    Vote { sender: sender.to_string(), node_id, mov }
}

fn open_node(node_id: u128, expected_voters: u32, valid_movs: Vec<u8>) -> GameNode {
    GameNode {
        node_id,
        state: GameState::zero(),
        from: NodeEdge { node_id: 0, mov: 0 },
        game_status: 0,
        valid_movs,
        expected_voters,
        internal: false,
        votes: vec![],
    }
}

#[test]
fn batches_hold_forty_five_blocks() {
    assert_eq!(BATCH_SIZE, 45);
}

#[test]
fn plan_covers_the_gap_in_batches() {
    let m = mori();
    assert_eq!(
        m.sync(None, 100),
        SyncPlan { batches: vec![(0, 45), (45, 90), (90, 100)], checkpoint: Some(100) }
    );
    assert_eq!(
        m.sync(Some(10), 55),
        SyncPlan { batches: vec![(10, 55)], checkpoint: Some(55) }
    );
    assert_eq!(
        m.sync(Some(10), 56),
        SyncPlan { batches: vec![(10, 55), (55, 56)], checkpoint: Some(56) }
    );
    assert_eq!(m.sync(Some(7), 8), SyncPlan { batches: vec![(7, 8)], checkpoint: Some(8) });
}

#[test]
fn plan_is_empty_when_nothing_is_new() {
    let m = mori();
    assert_eq!(m.sync(Some(100), 100), SyncPlan { batches: vec![], checkpoint: None });
    assert_eq!(m.sync(Some(101), 100), SyncPlan { batches: vec![], checkpoint: None });
    assert_eq!(m.sync(None, 0), SyncPlan { batches: vec![], checkpoint: None });
    assert_eq!(m.sync(Some(0), 0), SyncPlan { batches: vec![], checkpoint: None });
}

#[test]
fn plan_near_the_top_of_the_range_does_not_overflow() {
    let m = mori();
    let plan = m.sync(Some(u32::MAX - 50), u32::MAX);
    assert_eq!(
        plan.batches,
        vec![(u32::MAX - 50, u32::MAX - 5), (u32::MAX - 5, u32::MAX)]
    );
    assert_eq!(plan.checkpoint, Some(u32::MAX));
}

#[test]
fn batches_lie_end_to_end() {
    let m = mori();
    for (cur, latest) in [(0u32, 1u32), (0, 44), (0, 45), (0, 46), (3, 1000), (999, 1000)] {
        let plan = m.sync(Some(cur), latest);
        assert_eq!(plan.batches.first().unwrap().0, cur);
        assert_eq!(plan.batches.last().unwrap().1, latest);
        for w in plan.batches.windows(2) {
            assert_eq!(w[0].1, w[1].0);
        }
        for (s, e) in plan.batches.iter() {
            assert!(s < e && e - s <= 45);
        }
        assert_eq!(plan.batches.len() as u32, (latest - cur + 44) / 45);
    }
}

#[test]
fn second_sync_without_new_blocks_does_nothing() {
    let m = mori();
    for (stored, latest) in [(None, 0u32), (None, 500), (Some(20), 500), (Some(600), 500)] {
        let first = m.sync(stored, latest);
        let after = match first.checkpoint {
            Some(h) => Some(h),
            None => stored,
        };
        let second = m.sync(after, latest);
        assert_eq!(second, SyncPlan { batches: vec![], checkpoint: None });
    }
}

#[test]
fn start_height_only_moves_the_checkpoint_up() {
    let m = mori();
    assert_eq!(m.set_cur_height(None, 0), None);
    assert_eq!(m.set_cur_height(None, 5), Some(5));
    assert_eq!(m.set_cur_height(Some(5), 5), None);
    assert_eq!(m.set_cur_height(Some(5), 4), None);
    assert_eq!(m.set_cur_height(Some(5), 6), Some(6));
}

#[test]
fn function_names_are_classified() {
    assert_eq!(classify("vote"), EventKind::Vote);
    assert_eq!(classify("move_to_next"), EventKind::MoveToNext);
    assert_eq!(classify("open_game"), EventKind::OpenGame);
    assert_eq!(classify("mint"), EventKind::Ignored);
    assert_eq!(classify(""), EventKind::Ignored);
    assert_eq!(classify("Vote"), EventKind::Ignored);
    assert_eq!(classify("vote "), EventKind::Ignored);
}

#[test]
fn vote_transition_yields_the_vote_of_its_first_output() {
    let m = mori();
    let t = transition("vote", vec![], vec![vote_output("aleo1a", 9, 5), vote_output("aleo1b", 9, 6)]);
    assert_eq!(m.handle_vote(&t), Ok(LedgerEvent::Vote(vote("aleo1a", 9, 5))));
    assert_eq!(m.decode_event(&t), Ok(LedgerEvent::Vote(vote("aleo1a", 9, 5))));
}

#[test]
fn vote_transition_without_an_owned_record_is_ignored() {
    let m = mori();
    assert_eq!(m.handle_vote(&transition("vote", vec![], vec![])), Ok(LedgerEvent::Ignored));
    assert_eq!(
        m.handle_vote(&transition("vote", vec![], vec![Output::Other, vote_output("a", 1, 1)])),
        Ok(LedgerEvent::Ignored)
    );
}

#[test]
fn vote_transition_errors() {
    let m = mori();
    assert_eq!(
        m.handle_vote(&transition("vote", vec![], vec![Output::Sealed])),
        Err(DecodeError::Sealed)
    );
    let empty = Output::Owned(Record { serial_number: "1field".to_string(), data: vec![] });
    assert_eq!(m.handle_vote(&transition("vote", vec![], vec![empty])), Err(DecodeError::Record));
}

#[test]
fn open_transition_yields_the_root() {
    let m = mori();
    let t = transition("open_game", vec![public_u128(77)], vec![]);
    assert_eq!(m.handle_open(&t), Ok(LedgerEvent::OpenGame { node_id: 77 }));
    assert_eq!(m.decode_event(&t), Ok(LedgerEvent::OpenGame { node_id: 77 }));
}

#[test]
fn open_transition_edge_cases() {
    let m = mori();
    assert_eq!(m.handle_open(&transition("open_game", vec![], vec![])), Err(DecodeError::Inputs));
    assert_eq!(
        m.handle_open(&transition("open_game", vec![Input::Private], vec![])),
        Ok(LedgerEvent::Ignored)
    );
    assert_eq!(
        m.handle_open(&transition("open_game", vec![Input::Public(None)], vec![])),
        Ok(LedgerEvent::Ignored)
    );
    assert_eq!(
        m.handle_open(&transition(
            "open_game",
            vec![Input::Constant(Some(Plaintext::Literal(Literal::U128(1))))],
            vec![]
        )),
        Ok(LedgerEvent::Ignored)
    );
    assert_eq!(
        m.handle_open(&transition(
            "open_game",
            vec![Input::Public(Some(Plaintext::Literal(Literal::U8(1))))],
            vec![]
        )),
        Err(DecodeError::U128)
    );
}

#[test]
fn move_transition_yields_child_and_parent() {
    let m = mori();
    let t = transition("move_to_next", vec![public_u128(3), public_u128(4), public_u128(0)], vec![]);
    assert_eq!(m.handle_move(&t), Ok(LedgerEvent::MoveCommitted { child: 4, parent: Some(3) }));
    assert_eq!(m.decode_event(&t), Ok(LedgerEvent::MoveCommitted { child: 4, parent: Some(3) }));
}

#[test]
fn move_transition_edge_cases() {
    let m = mori();
    assert_eq!(
        m.handle_move(&transition("move_to_next", vec![public_u128(3)], vec![])),
        Err(DecodeError::Inputs)
    );
    assert_eq!(
        m.handle_move(&transition("move_to_next", vec![Input::Private, public_u128(4)], vec![])),
        Ok(LedgerEvent::MoveCommitted { child: 4, parent: None })
    );
    assert_eq!(
        m.handle_move(&transition(
            "move_to_next",
            vec![Input::Public(Some(Plaintext::Literal(Literal::U8(3)))), public_u128(4)],
            vec![]
        )),
        Ok(LedgerEvent::MoveCommitted { child: 4, parent: None })
    );
    assert_eq!(
        m.handle_move(&transition("move_to_next", vec![public_u128(3), Input::Private], vec![])),
        Ok(LedgerEvent::Ignored)
    );
    assert_eq!(
        m.handle_move(&transition(
            "move_to_next",
            vec![public_u128(3), Input::Public(Some(Plaintext::Literal(Literal::I8(3))))],
            vec![]
        )),
        Err(DecodeError::U128)
    );
}

#[test]
fn other_functions_are_ignored() {
    let m = mori();
    assert_eq!(m.decode_event(&transition("mint", vec![], vec![])), Ok(LedgerEvent::Ignored));
}

#[test]
fn process_block_observes_filters_and_reads() {
    let m = mori();
    let mut pool = FeePool::new();
    pool.insert(FeeRecord { serial_number: "old".to_string(), value: 50000 });
    let fee_output = Output::Owned(Record {
        serial_number: "new".to_string(),
        data: vec![(
            "microcredits".to_string(),
            Entry::Private(Plaintext::Literal(Literal::U64(60000))),
        )],
    });
    let mut foreign = transition("vote", vec![], vec![vote_output("aleo1x", 1, 1)]);
    foreign.program_id = "other.aleo".to_string();
    let mut fee_transition =
        transition("fee_private", vec![Input::Record("old".to_string())], vec![fee_output]);
    fee_transition.program_id = "credits.aleo".to_string();
    let block = Block {
        height: 3,
        transactions: vec![
            Transaction {
                accepted: true,
                transitions: vec![
                    transition("vote", vec![], vec![vote_output("aleo1a", 9, 5)]),
                    fee_transition,
                ],
            },
            Transaction {
                accepted: false,
                transitions: vec![transition("open_game", vec![public_u128(1)], vec![])],
            },
            Transaction {
                accepted: true,
                transitions: vec![
                    foreign,
                    transition("open_game", vec![], vec![]),
                    transition("move_to_next", vec![public_u128(9), public_u128(10)], vec![]),
                    transition("vote", vec![], vec![Output::Sealed]),
                    transition("open_game", vec![public_u128(11)], vec![]),
                ],
            },
        ],
    };
    let outcome = m.process_block(&mut pool, &block);
    assert_eq!(outcome.delta.spent, vec!["old".to_string()]);
    assert_eq!(
        outcome.delta.entered,
        vec![FeeRecord { serial_number: "new".to_string(), value: 60000 }]
    );
    assert_eq!(
        outcome.events,
        vec![
            Ok(LedgerEvent::Vote(vote("aleo1a", 9, 5))),
            Err(DecodeError::Inputs),
            Ok(LedgerEvent::MoveCommitted { child: 10, parent: Some(9) }),
            Err(DecodeError::Sealed),
            Ok(LedgerEvent::OpenGame { node_id: 11 }),
        ]
    );
    assert_eq!(pool.len(), 1);
    assert_eq!(pool.pop_front(), Ok(FeeRecord { serial_number: "new".to_string(), value: 60000 }));
}

#[test]
fn process_batch_takes_in_every_block_before_any_event_is_acted_on() {
    let m = mori();
    let mut pool = FeePool::new();
    let credits = |serial: &str| {
        Output::Owned(Record {
            serial_number: serial.to_string(),
            data: vec![(
                "microcredits".to_string(),
                Entry::Private(Plaintext::Literal(Literal::U64(50000))),
            )],
        })
    };
    let block = |height: u32, transitions: Vec<Transition>| Block {
        height,
        transactions: vec![Transaction { accepted: true, transitions }],
    };
    let mut pay = transition("transfer", vec![Input::Record("a".to_string())], vec![credits("b")]);
    pay.program_id = "credits.aleo".to_string();
    let mut mint = transition("mint", vec![], vec![credits("a"), credits("c")]);
    mint.program_id = "credits.aleo".to_string();
    let blocks = vec![
        block(1, vec![mint, transition("open_game", vec![public_u128(1)], vec![])]),
        block(2, vec![]),
        block(3, vec![transition("vote", vec![], vec![vote_output("aleo1a", 1, 5)]), pay]),
    ];

    let outcome = m.process_batch(&mut pool, &blocks);
    assert_eq!(
        outcome.events,
        vec![
            Ok(LedgerEvent::OpenGame { node_id: 1 }),
            Ok(LedgerEvent::Vote(vote("aleo1a", 1, 5))),
        ]
    );
    assert_eq!(outcome.deltas.len(), 3);
    assert_eq!(outcome.deltas[0].entered.len(), 2);
    assert!(outcome.deltas[1].spent.is_empty() && outcome.deltas[1].entered.is_empty());
    assert_eq!(outcome.deltas[2].spent, vec!["a".to_string()]);
    assert_eq!(pool.len(), 2);
    assert!(!pool.contains(&"a".to_string()));
    assert_eq!(pool.pop_front().unwrap().serial_number, "c");
    assert_eq!(pool.pop_front().unwrap().serial_number, "b");

    let empty = m.process_batch(&mut pool, &vec![]);
    assert!(empty.events.is_empty() && empty.deltas.is_empty());
}

#[test]
fn vote_on_a_missing_node_is_not_found() {
    let m = mori();
    assert!(matches!(m.apply_vote(None, vote("a", 1, 1)), Err(MoriError::NotFound)));
}

#[test]
fn node_is_written_back_whether_or_not_the_vote_counts() {
    let m = mori();
    let out = m.apply_vote(Some(open_node(1, 4, vec![5])), vote("a", 1, 6)).unwrap();
    assert_eq!(out.node, open_node(1, 4, vec![5]));
    assert!(out.request.is_none());

    let out = m.apply_vote(Some(open_node(1, 4, vec![5])), vote("a", 1, 5)).unwrap();
    assert_eq!(out.node.votes, vec![vote("a", 1, 5)]);
    assert!(out.request.is_none());
}

#[test]
fn the_request_of_a_decision_lists_each_voter_once() {
    let m = mori();
    let out = m.apply_vote(Some(open_node(1, 4, vec![5])), vote("a", 1, 5)).unwrap();
    assert!(out.request.is_none());
    let out = m.apply_vote(Some(out.node), vote("a", 1, 5)).unwrap();
    assert_eq!(out.node.votes.len(), 2);
    let req = out.request.unwrap();
    assert_eq!(req.parent_id, 1);
    assert_eq!(req.votes.len(), 1);
    assert_eq!(req.votes[0].mov, 5);
    assert_eq!(req.votes[0].addresses, vec!["a".to_string()]);
}

#[test]
fn remote_node_joins_ledger_and_resolver() {
    let m = mori();
    let value = Value::Plaintext(Plaintext::Struct(vec![
        ("node_id".to_string(), Plaintext::Literal(Literal::U128(12))),
        ("state".to_string(), Plaintext::Literal(Literal::U128(7083711853891053158400))),
        (
            "from".to_string(),
            Plaintext::Struct(vec![
                ("node_id".to_string(), Plaintext::Literal(Literal::U128(0))),
                ("mov".to_string(), Plaintext::Literal(Literal::U8(0))),
            ]),
        ),
        ("game_status".to_string(), Plaintext::Literal(Literal::I8(0))),
    ]));
    let resp = RestResponse {
        node_id: 12,
        parent_id: None,
        node_type: 0,
        state: vec![],
        valid_moves: vec![19, 26],
        game_status: 0,
        human_move: None,
        ai_move: None,
    };
    let node = m.get_remote_node(&value, resp.clone()).unwrap();
    assert_eq!(node, open_node(12, 4, vec![19, 26]));

    assert_eq!(
        m.get_remote_node(&Value::Record, resp.clone()),
        Err(MoriError::Decode(DecodeError::Value))
    );
    assert_eq!(
        m.get_remote_node(&Value::Future, resp.clone()),
        Err(MoriError::Decode(DecodeError::Value))
    );
    assert_eq!(
        m.get_remote_node(&Value::Plaintext(Plaintext::Struct(vec![])), resp),
        Err(MoriError::Decode(DecodeError::Record))
    );
}

#[test]
fn configuration_of_the_engine() {
    let m = mori();
    assert_eq!(m.network_key, "\"testnet3\"-APrivateKey1abc");
    assert_eq!(m.network_key, format!("{:?}-{}", "testnet3", "APrivateKey1abc"));
    assert_eq!(m.ai_token, " Bearar secret");
    assert_eq!(m.ai_dest, "http://resolver");
    assert_eq!(m.program, "mori.aleo");
    assert_eq!(m.expected_voters, 4);
    assert_eq!(m.pass_cap, 8);
    assert!(m.filter.accepts(&transition("vote", vec![], vec![])));
    assert!(m.filter.accepts(&transition("move_to_next", vec![], vec![])));
    assert!(m.filter.accepts(&transition("open_game", vec![], vec![])));
    assert!(!m.filter.accepts(&transition("mint", vec![], vec![])));
}
