//! The game as the node sees it: the packed board, votes, the nodes of the
//! game tree with their tally, and what goes to and comes from the move
//! resolver.

use vstd::prelude::*;
use vstd::string::*;

use crate::error::DecodeError;
use crate::ledger::{find, lookup, Entry, Plaintext, Record};
use crate::text::{has_text, texts};
use crate::utils::{
    addr_of, edge_of, entry_to_plain, handle_addr_plaintext, handle_from_plaintext,
    handle_i8_plaintext, handle_u128_plaintext, handle_u8_plaintext, i8_of, plain_of, u128_of,
    u8_of,
};

verus! {

/// Two-bit code of the cell at position `i` of a packed board:
/// 0 is empty, 1 is black, 2 is white, 3 is not a legal code.
pub open spec fn cell_code(raw: u128, i: int) -> u128 {
    (raw >> ((2 * i) as u128)) & 3
}

/// The trit that stands for a cell code: black is 1, white is -1, empty is 0.
pub open spec fn trit_of(code: u128) -> i8 {
    if code == 1 {
        1i8
    } else if code == 2 {
        -1i8
    } else {
        0i8
    }
}

/// The cell code that stands for a trit.
pub open spec fn code_of(trit: i8) -> u128 {
    if trit == 1 {
        1u128
    } else if trit == -1 {
        2u128
    } else {
        0u128
    }
}

/// A trit is -1, 0 or 1.
pub open spec fn is_trit(t: i8) -> bool {
    t == 0 || t == 1 || t == -1
}

/// Every one of the 64 cells holds a legal code.
pub open spec fn legal_board(raw: u128) -> bool {
    forall|i: int| 0 <= i < 64 ==> #[trigger] cell_code(raw, i) != 3
}

/// The first 64 entries exist and are trits.
pub open spec fn legal_cells(cells: Seq<i8>) -> bool {
    &&& cells.len() >= 64
    &&& forall|i: int| 0 <= i < 64 ==> is_trit(#[trigger] cells[i])
}

/// The 64 trits of a packed board, cell 0 first.
pub open spec fn unpack(raw: u128) -> Seq<i8> {
    Seq::new(64, |i: int| trit_of(cell_code(raw, i)))
}

/// The packed encoding of the first `n` cells; the other cells are empty.
pub open spec fn pack_prefix(cells: Seq<i8>, n: nat) -> u128
    decreases n,
{
    if n == 0 {
        0u128
    } else {
        pack_prefix(cells, (n - 1) as nat) | (code_of(cells[n - 1]) << ((2 * (n - 1)) as u128))
    }
}

/// The packed encoding of the first 64 cells.
pub open spec fn pack(cells: Seq<i8>) -> u128 {
    pack_prefix(cells, 64)
}

/// Writing a code at bit `s` of a board that is empty from bit `s` on sets
/// that cell, keeps the cells below it and leaves the cells above it empty.
proof fn lemma_set_cell(p: u128, c: u128, s: u128, t: u128)
    by (bit_vector)
    requires
        s <= 126,
        t <= 126,
        s & 1 == 0,
        t & 1 == 0,
        c < 3,
        p >> s == 0,
    ensures
        t < s ==> ((p | (c << s)) >> t) & 3 == (p >> t) & 3,
        t == s ==> ((p | (c << s)) >> t) & 3 == c,
        t > s ==> ((p | (c << s)) >> t) & 3 == 0,
        s < 126 ==> (p | (c << s)) >> ((s + 2) as u128) == 0,
{
}

/// What `pack_prefix` puts into each cell.
pub proof fn lemma_pack_prefix_cells(cells: Seq<i8>, n: nat)
    requires
        n <= 64,
        n <= cells.len(),
    ensures
        n < 64 ==> pack_prefix(cells, n) >> ((2 * n) as u128) == 0,
        forall|j: int| 0 <= j < n ==> #[trigger] cell_code(pack_prefix(cells, n), j) == code_of(cells[j]),
        forall|j: int| n <= j < 64 ==> #[trigger] cell_code(pack_prefix(cells, n), j) == 0,
    decreases n,
{
    if n == 0 {
        assert(0u128 >> 0u128 == 0) by (bit_vector);
        assert forall|j: int| 0 <= j < 64 implies #[trigger] cell_code(0u128, j) == 0 by {
            let t = (2 * j) as u128;
            assert((0u128 >> t) & 3 == 0) by (bit_vector);
        }
    } else {
        let m = (n - 1) as nat;
        lemma_pack_prefix_cells(cells, m);
        let p = pack_prefix(cells, m);
        let c = code_of(cells[m as int]);
        let s = (2 * m) as u128;
        let q = pack_prefix(cells, n);
        assert(q == p | (c << s));
        assert(s & 1 == 0) by (bit_vector)
            requires
                s % 2 == 0,
        ;
        assert forall|j: int| 0 <= j < 64 implies (#[trigger] cell_code(q, j) == if j < n {
            code_of(cells[j])
        } else {
            0
        }) by {
            let t = (2 * j) as u128;
            assert(t & 1 == 0) by (bit_vector)
                requires
                    t % 2 == 0,
            ;
            lemma_set_cell(p, c, s, t);
            if j < m {
                assert(cell_code(p, j) == code_of(cells[j]));
            }
        }
        if n < 64 {
            assert(0u128 & 1 == 0) by (bit_vector);
            lemma_set_cell(p, c, s, 0);
            assert((s + 2) as u128 == (2 * n) as u128);
        }
    }
}

/// Packing 64 trits and unpacking the result gives the trits back, and the
/// packed board is legal.
pub proof fn lemma_unpack_pack(cells: Seq<i8>)
    requires
        legal_cells(cells),
    ensures
        unpack(pack(cells)) == cells.subrange(0, 64),
        cells.len() == 64 ==> unpack(pack(cells)) == cells,
        legal_board(pack(cells)),
{
    lemma_pack_prefix_cells(cells, 64);
    if cells.len() == 64 {
        assert(cells.subrange(0, 64) =~= cells);
    }
    assert forall|i: int| 0 <= i < 64 implies #[trigger] unpack(pack(cells))[i] == cells[i] by {
        assert(cell_code(pack(cells), i) == code_of(cells[i]));
        assert(is_trit(cells[i]));
    }
    assert(unpack(pack(cells)) =~= cells.subrange(0, 64));
    assert forall|i: int| 0 <= i < 64 implies #[trigger] cell_code(pack(cells), i) != 3 by {
        assert(cell_code(pack(cells), i) == code_of(cells[i]));
    }
}

/// The lowest `2 * n` bits of a packed board: its first `n` cells.
pub open spec fn low_cells(raw: u128, n: nat) -> u128 {
    if n >= 64 {
        raw
    } else {
        raw & (((1u128 << ((2 * n) as u128)) - 1) as u128)
    }
}

/// The bits below `s + 2` are the bits below `s` and the cell at bit `s`.
proof fn lemma_low_cells_step(raw: u128, s: u128)
    by (bit_vector)
    requires
        s <= 126,
    ensures
        s < 126 ==> (raw & (((1u128 << s) - 1) as u128)) | (((raw >> s) & 3) << s) == raw & (((1u128
            << ((s + 2) as u128)) - 1) as u128),
        s == 126 ==> (raw & (((1u128 << s) - 1) as u128)) | (((raw >> s) & 3) << s) == raw,
        raw & (((1u128 << 0u128) - 1) as u128) == 0,
        (raw >> s) & 3 <= 3,
{
}

/// Packing the first `n` trits of a legal board gives its first `n` cells.
proof fn lemma_pack_prefix_unpack(raw: u128, n: nat)
    requires
        legal_board(raw),
        n <= 64,
    ensures
        pack_prefix(unpack(raw), n) == low_cells(raw, n),
    decreases n,
{
    if n == 0 {
        lemma_low_cells_step(raw, 0);
    } else {
        let m = (n - 1) as nat;
        lemma_pack_prefix_unpack(raw, m);
        let s = (2 * m) as u128;
        lemma_low_cells_step(raw, s);
        let c = cell_code(raw, m as int);
        assert(c != 3);
        assert(code_of(unpack(raw)[m as int]) == c);
        assert((s + 2) as u128 == (2 * n) as u128);
    }
}

/// Unpacking a legal board and packing the trits gives the board back.
pub proof fn lemma_pack_unpack(raw: u128)
    requires
        legal_board(raw),
    ensures
        pack(unpack(raw)) == raw,
        legal_cells(unpack(raw)),
{
    lemma_pack_prefix_unpack(raw, 64);
}

/// Two legal boards with the same trits are the same board.
pub proof fn lemma_unpack_injective(a: u128, b: u128)
    requires
        legal_board(a),
        legal_board(b),
        unpack(a) == unpack(b),
    ensures
        a == b,
{
    lemma_pack_unpack(a);
    lemma_pack_unpack(b);
}

/// The packed opening position: black on cells 27 and 36, white on 28 and 35.
pub const OPENING: u128 = 7083711853891053158400;

/// The trits of the opening position.
pub open spec fn opening_cells() -> Seq<i8> {
    Seq::new(
        64,
        |i: int|
            if i == 27 || i == 36 {
                1i8
            } else if i == 28 || i == 35 {
                -1i8
            } else {
                0i8
            },
    )
}

/// The code of the opening position at bit `t`.
proof fn lemma_opening_cell(t: u128)
    by (bit_vector)
    requires
        t <= 126,
        t & 1 == 0,
    ensures
        (7083711853891053158400u128 >> t) & 3 == (if t == 54 || t == 72 {
            1u128
        } else if t == 56 || t == 70 {
            2u128
        } else {
            0u128
        }),
{
}

/// The opening position is a legal board, and these are its trits.
pub proof fn lemma_opening()
    ensures
        legal_board(OPENING),
        unpack(OPENING) == opening_cells(),
{
    assert forall|i: int| 0 <= i < 64 implies #[trigger] cell_code(OPENING, i) == code_of(
        opening_cells()[i],
    ) by {
        let t = (2 * i) as u128;
        assert(t & 1 == 0) by (bit_vector)
            requires
                t % 2 == 0,
        ;
        lemma_opening_cell(t);
    }
    assert(unpack(OPENING) =~= opening_cells());
}

/// The two characters that show one cell.
pub open spec fn cell_text(t: i8) -> Seq<char> {
    if t == 1 {
        seq![' ', 'B']
    } else if t == -1 {
        seq![' ', 'W']
    } else {
        seq![' ', '.']
    }
}

/// The picture of the first `n` cells: two characters per cell, and a line
/// feed after every eighth cell.
pub open spec fn pretty_prefix(cells: Seq<i8>, n: nat) -> Seq<char>
    decreases n,
{
    if n == 0 {
        Seq::empty()
    } else {
        let body = pretty_prefix(cells, (n - 1) as nat) + cell_text(cells[n - 1]);
        if (n - 1) % 8 == 7 {
            body.push('\n')
        } else {
            body
        }
    }
}

/// The picture of a board: eight lines of eight cells.
pub open spec fn pretty_text(cells: Seq<i8>) -> Seq<char> {
    pretty_prefix(cells, 64)
}

/// A board of 64 cells, two bits per cell. Every value of this type holds a
/// legal code in each cell.
#[derive(Clone, Copy, Debug, PartialEq)]
pub struct GameState(u128);

impl View for GameState {
    type V = Seq<i8>;

    /// The 64 cells as trits.
    open spec fn view(&self) -> Seq<i8> {
        unpack(self.spec_raw())
    }
}

impl GameState {
    #[verifier::type_invariant]
    spec fn inv(self) -> bool {
        legal_board(self.0)
    }

    /// The packed 128-bit encoding.
    pub closed spec fn spec_raw(&self) -> u128 {
        self.0
    }

    /// The packed 128-bit encoding.
    #[verifier::when_used_as_spec(spec_raw)]
    pub fn raw(&self) -> (r: u128)
        ensures
            r == self.spec_raw(),
            legal_board(r),
    {
        proof {
            use_type_invariant(self);
        }
        self.0
    }

    /// Packs the first 64 entries of `vec`, cell 0 in the lowest two bits.
    pub fn from_vec_i8(vec: &[i8]) -> (r: GameState)
        requires
            legal_cells(vec@),
        ensures
            r.spec_raw() == pack(vec@),
            r@ == vec@.subrange(0, 64),
            legal_board(r.spec_raw()),
    {
        let mut result: u128 = 0;
        let mut i: usize = 0;
        while i < 64
            invariant
                i <= 64,
                legal_cells(vec@),
                result == pack_prefix(vec@, i as nat),
            decreases 64 - i,
        {
            let t: i8 = vec[i];
            let square: u128 = if t == 1 {
                1
            } else if t == -1 {
                2
            } else {
                0
            };
            assert(square == code_of(vec@[i as int]));
            let shift: u128 = 2 * (i as u128);
            result = result | (square << shift);
            i = i + 1;
        }
        proof {
            lemma_unpack_pack(vec@);
        }
        GameState(result)
    }

    /// The board with the given encoding, if every cell of it is legal.
    pub fn from_raw(raw: u128) -> (r: Option<GameState>)
        ensures
            r is Some <==> legal_board(raw),
            r matches Some(g) ==> g.spec_raw() == raw,
    {
        let mut i: usize = 0;
        while i < 64
            invariant
                i <= 64,
                forall|j: int| 0 <= j < i ==> #[trigger] cell_code(raw, j) != 3,
            decreases 64 - i,
        {
            let shift: u128 = 2 * (i as u128);
            let square: u128 = (raw >> shift) & 3;
            if square == 3 {
                assert(cell_code(raw, i as int) == 3);
                return None;
            }
            i = i + 1;
        }
        Some(GameState(raw))
    }

    /// Packs the first 64 entries of `vec` if there are that many and each
    /// is a trit.
    pub fn try_from_vec_i8(vec: &[i8]) -> (r: Option<GameState>)
        ensures
            r is Some <==> legal_cells(vec@),
            r matches Some(g) ==> g.spec_raw() == pack(vec@) && g@ == vec@.subrange(0, 64)
                && legal_board(g.spec_raw()),
    {
        if vec.len() < 64 {
            return None;
        }
        let mut i: usize = 0;
        while i < 64
            invariant
                i <= 64,
                vec@.len() >= 64,
                forall|j: int| 0 <= j < i ==> is_trit(#[trigger] vec@[j]),
            decreases 64 - i,
        {
            let t: i8 = vec[i];
            if !(t == 0 || t == 1 || t == -1) {
                return None;
            }
            i = i + 1;
        }
        Some(GameState::from_vec_i8(vec))
    }

    /// The 64 cells as trits, cell 0 first.
    pub fn to_vec_i8(&self) -> (r: Vec<i8>)
        ensures
            r@ == self@,
            r@.len() == 64,
            legal_cells(r@),
            pack(r@) == self.spec_raw(),
    {
        proof {
            use_type_invariant(self);
            lemma_pack_unpack(self.0);
        }
        let mut result: Vec<i8> = Vec::new();
        let mut i: usize = 0;
        while i < 64
            invariant
                i <= 64,
                result@.len() == i,
                forall|j: int| 0 <= j < i ==> #[trigger] result@[j] == trit_of(cell_code(self.0, j)),
            decreases 64 - i,
        {
            let shift: u128 = 2 * (i as u128);
            let square: u128 = (self.0 >> shift) & 3;
            if square == 1 {
                result.push(1);
            } else if square == 2 {
                result.push(-1);
            } else {
                result.push(0);
            }
            i = i + 1;
        }
        assert(result@ =~= unpack(self.0));
        result
    }

    /// The opening position.
    pub fn zero() -> (r: GameState)
        ensures
            r.spec_raw() == OPENING,
            r@ == opening_cells(),
            legal_board(r.spec_raw()),
    {
        proof {
            lemma_opening();
        }
        GameState(OPENING)
    }

    /// Whether `pos` names a cell of the board and that cell is empty.
    pub fn check_pos_valid(&self, pos: u8) -> (b: bool)
        ensures
            b == (pos < 64 && self@[pos as int] == 0),
    {
        proof {
            use_type_invariant(self);
        }
        if pos > 63 {
            return false;
        }
        let shift: u128 = 2 * (pos as u128);
        let square: u128 = (self.0 >> shift) & 3;
        proof {
            lemma_low_cells_step(self.0, shift);
            assert(cell_code(self.0, pos as int) == square);
        }
        square == 0
    }

    /// A picture of the board: `.` for an empty cell, `B` for black, `W` for
    /// white, each after a blank, eight cells to a line.
    pub fn pretty(&self) -> (r: String)
        ensures
            r@ == pretty_text(self@),
    {
        proof {
            use_type_invariant(self);
            reveal_strlit(" .");
            reveal_strlit(" B");
            reveal_strlit(" W");
            reveal_strlit("\n");
        }
        let mut result = String::new();
        let mut i: usize = 0;
        while i < 64
            invariant
                i <= 64,
                result@ == pretty_prefix(unpack(self.0), i as nat),
                " ."@ == seq![' ', '.'],
                " B"@ == seq![' ', 'B'],
                " W"@ == seq![' ', 'W'],
                "\n"@ == seq!['\n'],
            decreases 64 - i,
        {
            let shift: u128 = 2 * (i as u128);
            let square: u128 = (self.0 >> shift) & 3;
            assert(unpack(self.0)[i as int] == trit_of(square));
            if square == 1 {
                result.append(" B");
            } else if square == 2 {
                result.append(" W");
            } else {
                result.append(" .");
            }
            if i % 8 == 7 {
                result.append("\n");
                assert(result@ =~= (pretty_prefix(unpack(self.0), i as nat) + cell_text(
                    unpack(self.0)[i as int],
                )).push('\n'));
            }
            i = i + 1;
        }
        result
    }
}

/// The edge from a node back to its parent: the parent's id and the move
/// that led from the parent to the node. The root's parent id is 0.
#[derive(Clone, Copy, Debug, PartialEq, Eq, Structural)]
pub struct NodeEdge {
    pub node_id: u128,
    pub mov: u8,
}

/// One voter's proposal of a move for a node.
#[derive(Clone, Debug, PartialEq)]
pub struct Vote {
    pub sender: String,
    pub node_id: u128,
    pub mov: u8,
}

/// The address held by a private entry.
pub open spec fn private_addr(e: Entry) -> Result<String, DecodeError> {
    match plain_of(e) {
        Ok(p) => addr_of(p),
        Err(x) => Err(x),
    }
}

/// The `u128` held by a private entry.
pub open spec fn private_u128(e: Entry) -> Result<u128, DecodeError> {
    match plain_of(e) {
        Ok(p) => u128_of(p),
        Err(x) => Err(x),
    }
}

/// The `u8` held by a private entry.
pub open spec fn private_u8(e: Entry) -> Result<u8, DecodeError> {
    match plain_of(e) {
        Ok(p) => u8_of(p),
        Err(x) => Err(x),
    }
}

/// The vote that a record stands for. The record must hold private entries
/// `sender` (an address), `node_id` (a `u128`) and `mov` (a `u8`). A missing
/// entry is reported before an entry of the wrong shape, and the entries are
/// read in that order.
pub open spec fn vote_of_record(record: Record) -> Result<Vote, DecodeError> {
    match (
        lookup(record.data@, "sender"@),
        lookup(record.data@, "node_id"@),
        lookup(record.data@, "mov"@),
    ) {
        (Some(s), Some(n), Some(m)) => match private_addr(s) {
            Err(x) => Err(x),
            Ok(sender) => match private_u128(n) {
                Err(x) => Err(x),
                Ok(node_id) => match private_u8(m) {
                    Err(x) => Err(x),
                    Ok(mov) => Ok(Vote { sender, node_id, mov }),
                },
            },
        },
        _ => Err(DecodeError::Record),
    }
}

impl Vote {
    /// Reads a vote out of a decrypted record.
    pub fn try_from_record(record: &Record) -> (r: Result<Vote, DecodeError>)
        ensures
            r == vote_of_record(*record),
    {
        let sender_entry = find(&record.data, "sender");
        let node_id_entry = find(&record.data, "node_id");
        let mov_entry = find(&record.data, "mov");
        match (sender_entry, node_id_entry, mov_entry) {
            (Some(s), Some(n), Some(m)) => {
                let sender = match entry_to_plain(s) {
                    Err(x) => {
                        return Err(x);
                    },
                    Ok(p) => match handle_addr_plaintext(p) {
                        Err(x) => {
                            return Err(x);
                        },
                        Ok(v) => v,
                    },
                };
                let node_id = match entry_to_plain(n) {
                    Err(x) => {
                        return Err(x);
                    },
                    Ok(p) => match handle_u128_plaintext(p) {
                        Err(x) => {
                            return Err(x);
                        },
                        Ok(v) => v,
                    },
                };
                let mov = match entry_to_plain(m) {
                    Err(x) => {
                        return Err(x);
                    },
                    Ok(p) => match handle_u8_plaintext(p) {
                        Err(x) => {
                            return Err(x);
                        },
                        Ok(v) => v,
                    },
                };
                Ok(Vote { sender, node_id, mov })
            },
            _ => Err(DecodeError::Record),
        }
    }
}

/// One ply of the game tree, with the votes cast on it so far.
#[derive(Clone, Debug, PartialEq)]
pub struct GameNode {
    pub node_id: u128,
    pub state: GameState,
    pub from: NodeEdge,
    /// 0 while the game goes on; any other value is a final outcome.
    pub game_status: i8,
    /// The legal moves, as the move resolver last reported them.
    pub valid_movs: Vec<u8>,
    /// The number of voters that the node was created for.
    pub expected_voters: u32,
    /// Set once a child of this node has been committed to the ledger.
    pub internal: bool,
    /// The accepted votes, in the order in which they arrived.
    pub votes: Vec<Vote>,
}

/// What a node is, as mathematics.
pub struct NodeView {
    pub node_id: u128,
    pub state: Seq<i8>,
    pub from: NodeEdge,
    pub game_status: i8,
    pub valid_movs: Seq<u8>,
    pub expected_voters: nat,
    pub internal: bool,
    pub votes: Seq<Vote>,
}

impl View for GameNode {
    type V = NodeView;

    open spec fn view(&self) -> NodeView {
        NodeView {
            node_id: self.node_id,
            state: self.state@,
            from: self.from,
            game_status: self.game_status,
            valid_movs: self.valid_movs@,
            expected_voters: self.expected_voters as nat,
            internal: self.internal,
            votes: self.votes@,
        }
    }
}

impl NodeView {
    /// The tally never outgrows the number of expected voters.
    pub open spec fn wf(self) -> bool {
        self.votes.len() <= self.expected_voters
    }

    /// The game goes on and no child has been committed: the node takes votes.
    pub open spec fn open_leaf(self) -> bool {
        self.game_status == 0 && !self.internal
    }

    /// The number of accepted votes at which consensus is reached: half the
    /// expected voters, rounded down.
    pub open spec fn threshold(self) -> nat {
        self.expected_voters / 2
    }

    /// Whether `vote` is appended to the tally: the node takes votes, the
    /// move is legal, and the tally is not yet full.
    pub open spec fn accepts(self, vote: Vote) -> bool {
        &&& self.open_leaf()
        &&& self.valid_movs.contains(vote.mov)
        &&& self.votes.len() < self.expected_voters
    }

    /// The node after `vote` has been offered to it.
    pub open spec fn after_vote(self, vote: Vote) -> NodeView {
        if self.accepts(vote) {
            NodeView { votes: self.votes.push(vote), ..self }
        } else {
            self
        }
    }

    /// Whether offering `vote` decides the node: the vote is accepted, and it
    /// is the first accepted vote after which the tally has reached the
    /// threshold.
    pub open spec fn decides(self, vote: Vote) -> bool {
        &&& self.accepts(vote)
        &&& self.votes.len() + 1 >= self.threshold()
        &&& (self.votes.len() < self.threshold() || self.votes.len() == 0)
    }

    /// The node after each of `votes` has been offered to it in turn.
    pub open spec fn after_votes(self, votes: Seq<Vote>) -> NodeView
        decreases votes.len(),
    {
        if votes.len() == 0 {
            self
        } else {
            self.after_votes(votes.drop_last()).after_vote(votes.last())
        }
    }

    /// How many of `votes`, offered in turn, decide the node.
    pub open spec fn decisions(self, votes: Seq<Vote>) -> nat
        decreases votes.len(),
    {
        if votes.len() == 0 {
            0
        } else {
            let before = self.after_votes(votes.drop_last());
            self.decisions(votes.drop_last()) + if before.decides(votes.last()) {
                1nat
            } else {
                0nat
            }
        }
    }
}

/// The node that a struct read from the ledger stands for, created for
/// `expected_voters` voters. The struct must hold `node_id` and `state`
/// (`u128`), `from` (an edge) and `game_status` (`i8`). A missing member is
/// reported first; then the members are read in that order; the state is
/// checked last. The new node has no legal moves and no votes yet.
pub open spec fn node_of_plaintext(p: Plaintext, expected_voters: u32) -> Result<
    NodeView,
    DecodeError,
> {
    match p {
        Plaintext::Struct(members) => match (
            lookup(members@, "node_id"@),
            lookup(members@, "state"@),
            lookup(members@, "from"@),
            lookup(members@, "game_status"@),
        ) {
            (Some(a), Some(b), Some(c), Some(d)) => match u128_of(a) {
                Err(x) => Err(x),
                Ok(node_id) => match u128_of(b) {
                    Err(x) => Err(x),
                    Ok(raw) => match edge_of(c) {
                        Err(x) => Err(x),
                        Ok(from) => match i8_of(d) {
                            Err(x) => Err(x),
                            Ok(game_status) => if legal_board(raw) {
                                Ok(
                                    NodeView {
                                        node_id,
                                        state: unpack(raw),
                                        from,
                                        game_status,
                                        valid_movs: Seq::empty(),
                                        expected_voters: expected_voters as nat,
                                        internal: false,
                                        votes: Seq::empty(),
                                    },
                                )
                            } else {
                                Err(DecodeError::Board)
                            },
                        },
                    },
                },
            },
            _ => Err(DecodeError::Record),
        },
        _ => Err(DecodeError::Record),
    }
}

impl GameNode {
    /// Offers a vote to the node. The vote is appended if the node is open,
    /// is a leaf, lists the move as legal and has room in its tally;
    /// otherwise the node stays as it is. Returns whether this vote decided
    /// the node.
    pub fn check_and_add_vote(&mut self, vote: Vote) -> (decided: bool)
        ensures
            final(self)@ == old(self)@.after_vote(vote),
            decided == old(self)@.decides(vote),
            !old(self)@.valid_movs.contains(vote.mov) || !old(self)@.open_leaf() ==> !decided
                && final(self)@ == old(self)@,
            old(self)@.wf() ==> final(self)@.wf(),
    {
        if self.game_status != 0 || self.internal {
            return false;
        }
        if !contains_move(&self.valid_movs, vote.mov) {
            return false;
        }
        let count: usize = self.votes.len();
        if count >= self.expected_voters as usize {
            return false;
        }
        let threshold: usize = (self.expected_voters / 2) as usize;
        self.votes.push(vote);
        count + 1 >= threshold && (count < threshold || count == 0)
    }

    /// Replaces the legal moves.
    pub fn update_valid_movs(&mut self, movs: Vec<u8>)
        ensures
            final(self)@ == (NodeView { valid_movs: movs@, ..old(self)@ }),
    {
        self.valid_movs = movs;
    }

    /// Records that a child of this node has been committed: the node takes
    /// no further votes.
    pub fn mark_internal(&mut self)
        ensures
            final(self)@ == (NodeView { internal: true, ..old(self)@ }),
            !final(self)@.open_leaf(),
    {
        self.internal = true;
    }

    /// Whether the node is the root of its game.
    pub fn is_root(&self) -> (r: bool)
        ensures
            r == (self@.from.node_id == 0),
    {
        self.from.node_id == 0
    }

    /// Reads a node out of the struct that the ledger stores for it.
    pub fn from_plaintext(p: &Plaintext, expected_voters: u32) -> (r: Result<GameNode, DecodeError>)
        ensures
            match r {
                Ok(node) => node_of_plaintext(*p, expected_voters) == Ok::<NodeView, DecodeError>(
                    node@,
                ),
                Err(x) => node_of_plaintext(*p, expected_voters) == Err::<NodeView, DecodeError>(x),
            },
    {
        match p {
            Plaintext::Struct(s) => {
                let node_id_entry = find(s, "node_id");
                let state_entry = find(s, "state");
                let from_entry = find(s, "from");
                let game_status_entry = find(s, "game_status");
                match (node_id_entry, state_entry, from_entry, game_status_entry) {
                    (Some(a), Some(b), Some(c), Some(d)) => {
                        let node_id = match handle_u128_plaintext(a) {
                            Ok(v) => v,
                            Err(x) => {
                                return Err(x);
                            },
                        };
                        let raw = match handle_u128_plaintext(b) {
                            Ok(v) => v,
                            Err(x) => {
                                return Err(x);
                            },
                        };
                        let from = match handle_from_plaintext(c) {
                            Ok(v) => v,
                            Err(x) => {
                                return Err(x);
                            },
                        };
                        let game_status = match handle_i8_plaintext(d) {
                            Ok(v) => v,
                            Err(x) => {
                                return Err(x);
                            },
                        };
                        match GameState::from_raw(raw) {
                            Some(state) => Ok(
                                GameNode {
                                    node_id,
                                    state,
                                    from,
                                    game_status,
                                    valid_movs: Vec::new(),
                                    expected_voters,
                                    internal: false,
                                    votes: Vec::new(),
                                },
                            ),
                            None => Err(DecodeError::Board),
                        }
                    },
                    _ => Err(DecodeError::Record),
                }
            },
            _ => Err(DecodeError::Record),
        }
    }
}

/// Whether `mov` occurs in `movs`.
pub fn contains_move(movs: &Vec<u8>, mov: u8) -> (r: bool)
    ensures
        r == movs@.contains(mov),
{
    let mut i: usize = 0;
    while i < movs.len()
        invariant
            i <= movs.len(),
            forall|j: int| 0 <= j < i ==> movs@[j] != mov,
        decreases movs.len() - i,
    {
        if movs[i] == mov {
            return true;
        }
        i = i + 1;
    }
    false
}

/// The number of the accepted vote that decides a node: the threshold, or 1
/// where the threshold is 0.
pub open spec fn decision_point(n: NodeView) -> nat {
    if n.threshold() == 0 {
        1
    } else {
        n.threshold()
    }
}

/// A vote decides exactly when it is accepted and brings the tally to the
/// decision point.
pub proof fn lemma_decides_at_point(n: NodeView, vote: Vote)
    ensures
        n.decides(vote) <==> n.accepts(vote) && n.votes.len() + 1 == decision_point(n),
{
}

/// Offering votes changes nothing but the tally, and the tally only grows.
pub proof fn lemma_after_votes_frame(n: NodeView, votes: Seq<Vote>)
    ensures
        n.after_votes(votes) == (NodeView { votes: n.after_votes(votes).votes, ..n }),
        n.after_votes(votes).votes.len() >= n.votes.len(),
        n.wf() ==> n.after_votes(votes).wf(),
    decreases votes.len(),
{
    if votes.len() > 0 {
        lemma_after_votes_frame(n, votes.drop_last());
    }
}

/// A node is decided at most once, whatever votes are offered to it and in
/// whatever state it starts.
pub proof fn lemma_decides_at_most_once(n: NodeView, votes: Seq<Vote>)
    ensures
        n.decisions(votes) <= 1,
        n.decisions(votes) == 1 ==> n.after_votes(votes).votes.len() >= decision_point(n),
    decreases votes.len(),
{
    if votes.len() > 0 {
        lemma_decides_at_most_once(n, votes.drop_last());
        lemma_after_votes_frame(n, votes.drop_last());
        lemma_decides_at_point(n.after_votes(votes.drop_last()), votes.last());
    }
}

/// A node that starts with an empty tally has been decided exactly when its
/// tally has reached the decision point: for two or more expected voters,
/// when the count of accepted votes has reached half of them, rounded down.
pub proof fn lemma_decided_iff_threshold_reached(n: NodeView, votes: Seq<Vote>)
    requires
        n.votes.len() == 0,
    ensures
        n.decisions(votes) == (if n.after_votes(votes).votes.len() >= decision_point(n) {
            1nat
        } else {
            0nat
        }),
    decreases votes.len(),
{
    if votes.len() > 0 {
        lemma_decided_iff_threshold_reached(n, votes.drop_last());
        lemma_after_votes_frame(n, votes.drop_last());
        lemma_decides_at_point(n.after_votes(votes.drop_last()), votes.last());
    }
}

/// A vote for a move that the node does not list as legal leaves the node
/// as it is and decides nothing.
pub proof fn lemma_illegal_move_changes_nothing(n: NodeView, vote: Vote)
    requires
        !n.valid_movs.contains(vote.mov),
    ensures
        n.after_vote(vote) == n,
        n.after_vote(vote).votes.len() == n.votes.len(),
        !n.decides(vote),
{
}

/// The move that stands for "pass": the only entry of the legal moves of a
/// position in which the player to move cannot play.
pub const PASS_MOVE: u8 = 64;

/// A node as the move resolver describes it.
#[derive(Clone, Debug)]
pub struct RestResponse {
    pub node_id: u128,
    pub parent_id: Option<u128>,
    pub node_type: u8,
    pub state: Vec<i8>,
    pub valid_moves: Vec<u8>,
    pub game_status: i8,
    pub human_move: Option<u8>,
    pub ai_move: Option<u8>,
}

impl RestResponse {
    /// Whether the description is the pass sentinel: its legal moves are
    /// exactly the pass move.
    pub fn is_pass(&self) -> (r: bool)
        ensures
            r == (self.valid_moves@ == seq![PASS_MOVE]),
    {
        let r = self.valid_moves.len() == 1 && self.valid_moves[0] == PASS_MOVE;
        proof {
            if r {
                assert(self.valid_moves@ =~= seq![PASS_MOVE]);
            } else if self.valid_moves@.len() == 1 {
                assert(seq![PASS_MOVE][0] == PASS_MOVE);
            } else {
                assert(seq![PASS_MOVE].len() == 1);
            }
        }
        r
    }
}

/// The voters for one move.
#[derive(Clone, Debug)]
pub struct Votes {
    pub mov: u8,
    pub addresses: Vec<String>,
}

/// A request to the move resolver for the successors of a node.
#[derive(Clone, Debug)]
pub struct MovRequest {
    pub parent_id: u128,
    pub votes: Vec<Votes>,
}

/// What a `Votes` is, as mathematics.
pub struct TallyView {
    pub mov: u8,
    pub addresses: Seq<String>,
}

/// What a `MovRequest` is, as mathematics.
pub struct RequestView {
    pub parent_id: u128,
    pub votes: Seq<TallyView>,
}

impl View for Votes {
    type V = TallyView;

    open spec fn view(&self) -> TallyView {
        TallyView { mov: self.mov, addresses: self.addresses@ }
    }
}

/// The views of a sequence of groups.
pub open spec fn tally_views(groups: Seq<Votes>) -> Seq<TallyView> {
    Seq::new(groups.len(), |i: int| groups[i]@)
}

impl View for MovRequest {
    type V = RequestView;

    open spec fn view(&self) -> RequestView {
        RequestView { parent_id: self.parent_id, votes: tally_views(self.votes@) }
    }
}

/// The distinct moves voted for, in the order in which each first occurs.
pub open spec fn moves_seen(votes: Seq<Vote>) -> Seq<u8>
    decreases votes.len(),
{
    if votes.len() == 0 {
        Seq::empty()
    } else {
        let prev = moves_seen(votes.drop_last());
        if prev.contains(votes.last().mov) {
            prev
        } else {
            prev.push(votes.last().mov)
        }
    }
}

/// The distinct voters for `mov`: each sender of a vote for `mov` once, in
/// the order of their first vote for it. Two senders are the same voter if
/// they have the same text.
pub open spec fn senders_of(votes: Seq<Vote>, mov: u8) -> Seq<String>
    decreases votes.len(),
{
    if votes.len() == 0 {
        Seq::empty()
    } else {
        let prev = senders_of(votes.drop_last(), mov);
        if votes.last().mov == mov && !texts(prev).contains(votes.last().sender@) {
            prev.push(votes.last().sender)
        } else {
            prev
        }
    }
}

/// Whether `vote` is a vote for `mov` by the sender with the text `text`.
pub open spec fn is_vote_for(vote: Vote, mov: u8, text: Seq<char>) -> bool {
    vote.mov == mov && vote.sender@ == text
}

/// Whether some vote is a vote for `mov` by the sender `text`.
pub open spec fn voted_for(votes: Seq<Vote>, mov: u8, text: Seq<char>) -> bool {
    exists|i: int| 0 <= i < votes.len() && #[trigger] is_vote_for(votes[i], mov, text)
}

/// Whether the vote at `at` is the first vote for `mov` by the sender
/// `text`.
pub open spec fn first_vote_for(votes: Seq<Vote>, mov: u8, text: Seq<char>, at: int) -> bool {
    &&& 0 <= at < votes.len()
    &&& is_vote_for(votes[at], mov, text)
    &&& forall|j: int| 0 <= j < at ==> !#[trigger] is_vote_for(votes[j], mov, text)
}

/// No text occurs twice.
pub open spec fn distinct_texts(names: Seq<String>) -> bool {
    forall|a: int, b: int| 0 <= a < b < names.len() ==> #[trigger] names[a]@ != #[trigger] names[b]@
}

/// Every group holds distinct voters.
pub open spec fn distinct_voters(groups: Seq<TallyView>) -> bool {
    forall|g: int| 0 <= g < groups.len() ==> distinct_texts(#[trigger] groups[g].addresses)
}

/// The votes grouped by move: one group for each move voted for, in the
/// order in which the moves first occur, each with its distinct voters in
/// the order of their first vote for the move.
pub open spec fn tally(votes: Seq<Vote>) -> Seq<TallyView> {
    Seq::new(
        moves_seen(votes).len(),
        |i: int|
            TallyView {
                mov: moves_seen(votes)[i],
                addresses: senders_of(votes, moves_seen(votes)[i]),
            },
    )
}

/// The voters for a move are distinct; a sender is among them exactly if
/// some vote for the move is theirs; and they stand in the order of their
/// first vote for the move.
pub proof fn lemma_senders_of(votes: Seq<Vote>, mov: u8)
    ensures
        distinct_texts(senders_of(votes, mov)),
        forall|text: Seq<char>| #[trigger]
            texts(senders_of(votes, mov)).contains(text) <==> voted_for(votes, mov, text),
        forall|a: int, b: int, i: int, j: int|
            #![trigger
                first_vote_for(votes, mov, senders_of(votes, mov)[a]@, i),
                first_vote_for(votes, mov, senders_of(votes, mov)[b]@, j),
            ]
            0 <= a < b < senders_of(votes, mov).len() && first_vote_for(
                votes,
                mov,
                senders_of(votes, mov)[a]@,
                i,
            ) && first_vote_for(votes, mov, senders_of(votes, mov)[b]@, j) ==> i < j,
    decreases votes.len(),
{
    let out = senders_of(votes, mov);
    if votes.len() == 0 {
        assert forall|text: Seq<char>| #[trigger]
            texts(out).contains(text) <==> voted_for(votes, mov, text) by {
            if texts(out).contains(text) {
                let k = choose|k: int| 0 <= k < texts(out).len() && texts(out)[k] == text;
            }
        }
    } else {
        let init = votes.drop_last();
        let last = votes.last();
        let n = votes.len() as int;
        let prev = senders_of(init, mov);
        let fresh = last.mov == mov && !texts(prev).contains(last.sender@);
        lemma_senders_of(init, mov);
        assert(out == if fresh {
            prev.push(last.sender)
        } else {
            prev
        });
        // A vote of `init` is a vote of `votes`, and the other way round
        // but for the last.
        assert forall|text: Seq<char>|
            voted_for(votes, mov, text) <==> voted_for(init, mov, text) || is_vote_for(
                last,
                mov,
                text,
            ) by {
            if voted_for(votes, mov, text) {
                let k = choose|k: int| 0 <= k < votes.len() && #[trigger] is_vote_for(
                    votes[k],
                    mov,
                    text,
                );
                if k < n - 1 {
                    assert(is_vote_for(init[k], mov, text));
                }
            }
            if voted_for(init, mov, text) {
                let k = choose|k: int| 0 <= k < init.len() && #[trigger] is_vote_for(
                    init[k],
                    mov,
                    text,
                );
                assert(is_vote_for(votes[k], mov, text));
            }
            if is_vote_for(last, mov, text) {
                assert(is_vote_for(votes[n - 1], mov, text));
            }
        }
        assert forall|text: Seq<char>| #[trigger]
            texts(out).contains(text) <==> voted_for(votes, mov, text) by {
            assert(texts(prev).contains(text) <==> voted_for(init, mov, text));
            if texts(out).contains(text) {
                let k = choose|k: int| 0 <= k < texts(out).len() && texts(out)[k] == text;
                if k < prev.len() {
                    assert(texts(prev)[k] == text);
                }
            }
            if texts(prev).contains(text) {
                let k = choose|k: int| 0 <= k < texts(prev).len() && texts(prev)[k] == text;
                assert(texts(out)[k] == text);
            }
            if is_vote_for(last, mov, text) {
                if fresh {
                    assert(texts(out)[prev.len() as int] == text);
                } else {
                    assert(texts(prev).contains(last.sender@));
                }
            }
        }
        assert forall|a: int, b: int| 0 <= a < b < out.len() implies #[trigger] out[a]@
            != #[trigger] out[b]@ by {
            if b < prev.len() {
                assert(prev[a]@ != prev[b]@);
            } else {
                assert(texts(prev)[a] == prev[a]@);
            }
        }
        assert forall|a: int, b: int, i: int, j: int|
            #![trigger first_vote_for(votes, mov, out[a]@, i), first_vote_for(votes, mov, out[b]@, j)]
            0 <= a < b < out.len() && first_vote_for(votes, mov, out[a]@, i) && first_vote_for(
                votes,
                mov,
                out[b]@,
                j,
            ) implies i < j by {
            // The sender at `a` is one of `prev`, so their first vote is
            // among `init`.
            assert(texts(prev)[a] == out[a]@);
            assert(texts(prev).contains(out[a]@));
            assert(voted_for(init, mov, out[a]@));
            let ka = choose|k: int| 0 <= k < init.len() && #[trigger] is_vote_for(
                init[k],
                mov,
                out[a]@,
            );
            assert(is_vote_for(votes[ka], mov, out[a]@));
            assert(i <= ka);
            assert(first_vote_for(init, mov, out[a]@, i)) by {
                assert(init[i] == votes[i]);
                assert forall|t: int| 0 <= t < i implies !#[trigger] is_vote_for(
                    init[t],
                    mov,
                    out[a]@,
                ) by {
                    assert(init[t] == votes[t]);
                }
            }
            if b < prev.len() {
                assert(texts(prev)[b] == out[b]@);
                assert(texts(prev).contains(out[b]@));
                assert(voted_for(init, mov, out[b]@));
                let kb = choose|k: int| 0 <= k < init.len() && #[trigger] is_vote_for(
                    init[k],
                    mov,
                    out[b]@,
                );
                assert(is_vote_for(votes[kb], mov, out[b]@));
                assert(j <= kb);
                assert(first_vote_for(init, mov, out[b]@, j)) by {
                    assert(init[j] == votes[j]);
                    assert forall|t: int| 0 <= t < j implies !#[trigger] is_vote_for(
                        init[t],
                        mov,
                        out[b]@,
                    ) by {
                        assert(init[t] == votes[t]);
                    }
                }
            } else {
                // The sender at `b` is new with the last vote.
                assert(out[b]@ == last.sender@);
                assert(!voted_for(init, mov, out[b]@));
                if j < n - 1 {
                    assert(is_vote_for(init[j], mov, out[b]@));
                }
            }
        }
    }
}

/// The groups of a tally hold distinct voters.
pub proof fn lemma_tally_distinct(votes: Seq<Vote>)
    ensures
        distinct_voters(tally(votes)),
{
    assert forall|g: int| 0 <= g < tally(votes).len() implies distinct_texts(
        #[trigger] tally(votes)[g].addresses,
    ) by {
        lemma_senders_of(votes, moves_seen(votes)[g]);
    }
}

/// No move occurs twice among the moves seen, and a move that is not among
/// them has no senders.
pub proof fn lemma_moves_seen(votes: Seq<Vote>)
    ensures
        forall|a: int, b: int|
            0 <= a < b < moves_seen(votes).len() ==> moves_seen(votes)[a] != moves_seen(votes)[b],
        forall|m: u8| !moves_seen(votes).contains(m) ==> #[trigger] senders_of(votes, m).len() == 0,
        forall|i: int| 0 <= i < votes.len() ==> moves_seen(votes).contains(#[trigger] votes[i].mov),
    decreases votes.len(),
{
    if votes.len() > 0 {
        let prev = moves_seen(votes.drop_last());
        let last = votes.last().mov;
        lemma_moves_seen(votes.drop_last());
        if !prev.contains(last) {
            assert(moves_seen(votes)[prev.len() as int] == last);
        }
        assert forall|m: u8| !moves_seen(votes).contains(m) implies #[trigger] senders_of(
            votes,
            m,
        ).len() == 0 by {
            if prev.contains(m) {
                let k = choose|k: int| 0 <= k < prev.len() && prev[k] == m;
                assert(moves_seen(votes)[k] == m);
                assert(moves_seen(votes).contains(m));
            }
            if m == last {
                if prev.contains(last) {
                } else {
                    assert(moves_seen(votes)[prev.len() as int] == last);
                }
                assert(moves_seen(votes).contains(m));
            }
            assert(senders_of(votes.drop_last(), m).len() == 0);
        }
        assert forall|i: int| 0 <= i < votes.len() implies moves_seen(votes).contains(
            #[trigger] votes[i].mov,
        ) by {
            if i < votes.len() - 1 {
                assert(votes.drop_last()[i] == votes[i]);
                let k = choose|k: int| 0 <= k < prev.len() && prev[k] == votes[i].mov;
                assert(moves_seen(votes)[k] == votes[i].mov);
            } else {
                if prev.contains(last) {
                } else {
                    assert(moves_seen(votes)[prev.len() as int] == last);
                }
            }
        }
    }
}

impl MovRequest {
    /// The request that asks the resolver to pass on behalf of `node_id`:
    /// one group, for the pass move, without voters.
    pub fn pass(node_id: u128) -> (r: MovRequest)
        ensures
            r@.parent_id == node_id,
            r@.votes == seq![TallyView { mov: PASS_MOVE, addresses: Seq::empty() }],
    {
        let mut votes: Vec<Votes> = Vec::new();
        votes.push(Votes { mov: PASS_MOVE, addresses: Vec::new() });
        let r = MovRequest { parent_id: node_id, votes };
        assert(r@.votes =~= seq![TallyView { mov: PASS_MOVE, addresses: Seq::empty() }]);
        r
    }

    /// The request for the successors of `node`: its votes grouped by
    /// move, each group with its distinct voters. A sender who voted more
    /// than once for a move is listed once in the group of that move.
    pub fn from_node(node: GameNode) -> (r: MovRequest)
        ensures
            r@.parent_id == node@.node_id,
            r@.votes == tally(node@.votes),
            distinct_voters(r@.votes),
    {
        MovRequest::from_votes(&node)
    }

    /// As `from_node`, leaving the node with the caller.
    pub fn from_votes(node: &GameNode) -> (r: MovRequest)
        ensures
            r@.parent_id == node@.node_id,
            r@.votes == tally(node@.votes),
            distinct_voters(r@.votes),
    {
        let mut groups: Vec<Votes> = Vec::new();
        let mut i: usize = 0;
        assert(tally_views(groups@) =~= tally(node.votes@.take(0)));
        while i < node.votes.len()
            invariant
                i <= node.votes.len(),
                tally_views(groups@) == tally(node.votes@.take(i as int)),
            decreases node.votes.len() - i,
        {
            let ghost seen = node.votes@.take(i as int);
            let ghost next = node.votes@.take(i as int + 1);
            let mov: u8 = node.votes[i].mov;
            let sender: String = node.votes[i].sender.clone();
            proof {
                assert(next.drop_last() =~= seen);
                assert(next.last() == node.votes@[i as int]);
                lemma_moves_seen(seen);
                assert(tally_views(groups@).len() == groups@.len());
                assert(tally(seen).len() == moves_seen(seen).len());
                assert forall|j: int| 0 <= j < groups@.len() implies groups@[j].mov == moves_seen(
                    seen,
                )[j] && groups@[j].addresses@ == senders_of(seen, moves_seen(seen)[j]) by {
                    assert(tally_views(groups@)[j] == tally(seen)[j]);
                }
            }
            let mut k: usize = 0;
            while k < groups.len() && groups[k].mov != mov
                invariant
                    k <= groups.len(),
                    forall|j: int| 0 <= j < k ==> groups@[j].mov != mov,
                decreases groups.len() - k,
            {
                k = k + 1;
            }
            if k < groups.len() {
                proof {
                    assert(moves_seen(seen)[k as int] == mov);
                    assert(moves_seen(next) == moves_seen(seen));
                    assert(groups@[k as int].addresses@ == senders_of(seen, mov));
                }
                if has_text(&groups[k].addresses, &sender) {
                    assert(tally_views(groups@) =~= tally(next));
                } else {
                    let mut group = groups.remove(k);
                    group.addresses.push(sender);
                    groups.insert(k, group);
                    assert(tally_views(groups@) =~= tally(next));
                }
            } else {
                let mut addresses: Vec<String> = Vec::new();
                addresses.push(sender);
                groups.push(Votes { mov, addresses });
                proof {
                    assert(!moves_seen(seen).contains(mov));
                    assert(senders_of(seen, mov).len() == 0);
                    assert(texts(senders_of(seen, mov)) =~= Seq::empty());
                    assert(moves_seen(next) == moves_seen(seen).push(mov));
                    assert(groups@[k as int].addresses@ =~= senders_of(next, mov));
                    assert(tally_views(groups@) =~= tally(next));
                }
            }
            i = i + 1;
        }
        proof {
            assert(node.votes@.take(node.votes@.len() as int) =~= node.votes@);
            lemma_tally_distinct(node.votes@);
        }
        MovRequest { parent_id: node.node_id, votes: groups }
    }
}

} // verus!
