use backend::cores::{GameNode, GameState, NodeEdge, RestResponse, Vote};
use backend::dispatch::{move_to_next_call, open_game_call, Execution, PassStep, ProgramCall};
use backend::error::{DecodeError, MoriError};
use backend::pool::{FeePool, FeeRecord};
use backend::Mori;

fn mori() -> Mori {
    Mori::new(
        "testnet3",
        "APrivateKey1abc",
        "mori.aleo".to_string(),
        "http://resolver".to_string(),
        "secret".to_string(),
        4,
        2,
    )
}

fn successor(node_id: u128, parent: Option<u128>, human_move: Option<u8>) -> RestResponse {
    RestResponse {
        node_id,
        parent_id: parent,
        node_type: 1,
        state: GameState::zero().to_vec_i8(),
        valid_moves: vec![20, 29],
        game_status: 0,
        human_move,
        ai_move: Some(18),
    }
}

fn funded_pool() -> FeePool {
    let mut pool = FeePool::new();
    pool.insert(FeeRecord { serial_number: "f1".to_string(), value: 50000 });
    pool.insert(FeeRecord { serial_number: "f2".to_string(), value: 50000 });
    pool
}

fn vote(sender: &str, node_id: u128, mov: u8) -> Vote {
    Vote { sender: sender.to_string(), node_id, mov }
}

#[test]
fn open_game_call_names_the_root() {
    let call = open_game_call(&successor(31, None, None));
    assert_eq!(
        call,
        ProgramCall { function: "open_game".to_string(), inputs: vec!["31u128".to_string()] }
    );
}

#[test]
fn move_to_next_call_lists_parent_id_state_status_move() {
    let mut mov = successor(32, Some(31), Some(19));
    mov.game_status = -1;
    let call = move_to_next_call(&mov).unwrap();
    assert_eq!(call.function, "move_to_next");
    assert_eq!(
        call.inputs,
        vec!["31u128", "32u128", "7083711853891053158400u128", "-1i8", "19u8"]
    );
}

#[test]
fn move_to_next_call_errors_in_order() {
    let mut bad_board = successor(32, None, None);
    bad_board.state = vec![0; 63];
    assert_eq!(move_to_next_call(&bad_board), Err(DecodeError::Board));
    bad_board.state = vec![2; 64];
    assert_eq!(move_to_next_call(&bad_board), Err(DecodeError::Board));

    assert_eq!(move_to_next_call(&successor(32, None, None)), Err(DecodeError::Parent));
    assert_eq!(move_to_next_call(&successor(32, None, Some(1))), Err(DecodeError::Parent));
    assert_eq!(move_to_next_call(&successor(32, Some(31), None)), Err(DecodeError::Move));
}

#[test]
fn the_end_of_the_queue_ends_the_dispatcher() {
    assert!(matches!(Execution::received(None), Err(MoriError::ChannelClosed)));
    assert!(matches!(Execution::received(Some(Execution::OpenGame)), Ok(Execution::OpenGame)));
    match Execution::received(Some(Execution::MoveToNext(successor(5, Some(4), Some(1))))) {
        Ok(Execution::MoveToNext(r)) => assert_eq!(r.node_id, 5),
        _ => panic!("expected the request back"),
    }
    assert!(MoriError::ChannelClosed.is_fatal());
    assert_eq!(backend::QUEUE_CAPACITY, 100);
    assert_eq!(backend::SYNC_INTERVAL_SECS, 15);
    assert_eq!(backend::ALEO_NETWORK, "testnet3");
}

#[test]
fn needs_root_only_for_open_game() {
    assert!(Execution::OpenGame.needs_root());
    assert!(!Execution::MoveToNext(successor(1, Some(0), Some(1))).needs_root());
}

#[test]
fn submission_takes_the_oldest_fee_record() {
    let m = mori();
    let mut pool = funded_pool();
    let s = m
        .execute_program(&Execution::MoveToNext(successor(32, Some(31), Some(19))), None, &mut pool)
        .unwrap();
    assert_eq!(s.program, "mori.aleo");
    assert_eq!(s.call.function, "move_to_next");
    assert_eq!(s.fee, 40000);
    assert_eq!(s.fee_record, FeeRecord { serial_number: "f1".to_string(), value: 50000 });
    assert_eq!(pool.len(), 1);

    let root = successor(40, None, None);
    let s = m.execute_program(&Execution::OpenGame, Some(&root), &mut pool).unwrap();
    assert_eq!(
        s.call,
        ProgramCall { function: "open_game".to_string(), inputs: vec!["40u128".to_string()] }
    );
    assert_eq!(s.fee_record.serial_number, "f2");
    assert_eq!(pool.len(), 0);
}

#[test]
fn empty_pool_fails_the_request_with_funding_exhausted() {
    let m = mori();
    let mut pool = FeePool::new();
    let r = m.execute_program(
        &Execution::MoveToNext(successor(32, Some(31), Some(19))),
        None,
        &mut pool,
    );
    assert!(matches!(r, Err(MoriError::FundingExhausted)));
    let root = successor(40, None, None);
    let r = m.execute_program(&Execution::OpenGame, Some(&root), &mut pool);
    assert!(matches!(r, Err(MoriError::FundingExhausted)));
}

#[test]
fn a_request_that_cannot_be_built_takes_no_fee_record() {
    let m = mori();
    let mut pool = funded_pool();
    let r = m.execute_program(&Execution::MoveToNext(successor(32, None, Some(19))), None, &mut pool);
    assert!(matches!(r, Err(MoriError::Decode(DecodeError::Parent))));
    assert_eq!(pool.len(), 2);
    let r = m.execute_program(&Execution::OpenGame, None, &mut pool);
    assert!(matches!(r, Err(MoriError::CollaboratorUnavailable)));
    assert_eq!(pool.len(), 2);
    let mut pool = FeePool::new();
    let r = m.execute_program(&Execution::OpenGame, None, &mut pool);
    assert!(matches!(r, Err(MoriError::CollaboratorUnavailable)));
}

#[test]
fn an_answer_with_moves_is_committed() {
    let m = mori();
    match m.move_to_next_remote(successor(32, Some(31), Some(19)), 0) {
        PassStep::Done(Execution::MoveToNext(r)) => assert_eq!(r.node_id, 32),
        _ => panic!("expected a commit"),
    }
    match m.move_to_next_remote(successor(32, Some(31), Some(19)), 10) {
        PassStep::Done(Execution::MoveToNext(r)) => assert_eq!(r.node_id, 32),
        _ => panic!("expected a commit"),
    }
}

#[test]
fn a_pass_is_sent_back_until_the_bound() {
    let m = mori();
    let mut pass = successor(33, Some(32), Some(64));
    pass.valid_moves = vec![64];
    for sent in 0..2 {
        match m.move_to_next_remote(pass.clone(), sent) {
            PassStep::Retry { request, tries } => {
                assert_eq!(tries, sent + 1);
                assert_eq!(request.parent_id, 33);
                assert_eq!(request.votes.len(), 1);
                assert_eq!(request.votes[0].mov, 64);
                assert!(request.votes[0].addresses.is_empty());
            }
            _ => panic!("expected a retry"),
        }
    }
    assert!(matches!(m.move_to_next_remote(pass.clone(), 2), PassStep::GiveUp));
    assert!(matches!(m.move_to_next_remote(pass, u32::MAX), PassStep::GiveUp));
}

#[test]
fn two_votes_of_four_decide_once_and_enqueue_one_move() {
    let m = mori();
    let mut pool = funded_pool();
    let root = GameNode {
        node_id: 100,
        state: GameState::zero(),
        from: NodeEdge { node_id: 0, mov: 0 },
        game_status: 0,
        valid_movs: vec![5, 6],
        expected_voters: 4,
        internal: false,
        votes: vec![],
    };
    let mut queue: Vec<Execution> = Vec::new();
    let mut requests: u32 = 0;

    // What the resolver answers to a request for the successors of node 100.
    let resolver = |parent: u128, mov: u8| successor(101, Some(parent), Some(mov));

    let mut stored = root;
    for sender in ["aleo1a", "aleo1b", "aleo1c"] {
        let out = m.apply_vote(Some(stored), vote(sender, 100, 5)).unwrap();
        if let Some(req) = out.request {
            requests += 1;
            assert_eq!(req.parent_id, 100);
            assert_eq!(req.votes.len(), 1);
            assert_eq!(req.votes[0].mov, 5);
            assert_eq!(req.votes[0].addresses, vec!["aleo1a", "aleo1b"]);
            match m.move_to_next_remote(resolver(req.parent_id, req.votes[0].mov), 0) {
                PassStep::Done(exec) => queue.push(exec),
                _ => panic!("expected a commit"),
            }
        }
        stored = out.node;
    }

    assert_eq!(requests, 1);
    assert_eq!(stored.votes.len(), 3);
    assert_eq!(queue.len(), 1);
    let s = m.execute_program(&queue[0], None, &mut pool).unwrap();
    assert_eq!(s.call.function, "move_to_next");
    assert_eq!(
        s.call.inputs,
        vec!["100u128", "101u128", "7083711853891053158400u128", "0i8", "5u8"]
    );
}
