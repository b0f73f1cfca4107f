//! The prover's side of the battleship proofs: the public values that a
//! proof carries, reading them back from its public words, and the wire
//! values that the prover hands to the proof system for a board proof and
//! for an attack proof.
use crate::circuits::battleship::attack_holds;
use crate::circuits::battleship::board_message;
use crate::circuits::battleship::coords_hit;
use crate::circuits::battleship::init_chessboard_holds;
use crate::circuits::battleship::piece_coords;
use crate::circuits::battleship::pieces_distinct;
use crate::circuits::battleship::pieces_in_range;
use crate::circuits::battleship::sha256_holds;
use crate::circuits::battleship::AttackWitness;
use crate::circuits::battleship::ChessboardWitness;
use crate::digest::sha256;
use crate::digest::sha256_of;
use crate::words::be_word_of;
use crate::words::be_words_of;
use crate::words::le_word_of;
use crate::words::lemma_le_word_bytes;
use crate::words::lemma_words_le_bytes_of_blocks;
use crate::words::pack_pieces;
use crate::words::word_from_be_bytes;
use crate::words::word_from_le_bytes;
use vstd::prelude::*;

verus! {

/// The error of an attack whose cell lies outside the board.
#[derive(Debug)]
pub struct OutsideError {
    details: String,
}

impl View for OutsideError {
    type V = Seq<char>;

    closed spec fn view(&self) -> Seq<char> {
        self.details@
    }
}

impl OutsideError {
    /// An error with the message `msg`.
    pub fn new(msg: &str) -> (e: Self)
        ensures
            e@ == msg@,
    {
        OutsideError { details: msg.to_owned() }
    }

    /// The message of the error.
    pub fn details(&self) -> (s: String)
        ensures
            s@ == self@,
    {
        self.details.clone()
    }
}

/// The public values of a board proof.
#[derive(Debug, Clone, PartialEq, Eq)]
pub struct InitChessboardPublic {
    pub cont: u64,
    pub size: u64,
    pub out_hash: [u64; 4],
}

/// A board proof: its public words and the proof bytes.
#[derive(Debug, Clone, PartialEq, Eq)]
pub struct InitChessboardProof {
    pub public_words: Vec<u64>,
    pub proof: Vec<u8>,
}

/// The public values of an attack proof.
#[derive(Debug, Clone, PartialEq, Eq)]
pub struct AttackCircuitPublic {
    pub cont: u64,
    pub size: u64,
    pub out_hash: [u64; 4],
    pub attack_piece: u64,
    pub out_attack_result: u64,
}

/// An attack proof: its public words and the proof bytes.
#[derive(Debug, Clone, PartialEq, Eq)]
pub struct AttackCircuitProof {
    pub public_words: Vec<u64>,
    pub proof: Vec<u8>,
}

/// Where the board circuit's public wires stand among a proof's public words
/// (the circuit's witness index of each wire).
#[derive(Debug, Clone, Copy, PartialEq, Eq)]
pub struct ChessboardPublicLayout {
    pub cont: u32,
    pub size: u32,
    pub out_hash: [u32; 4],
}

/// Where the attack circuit's public wires stand among a proof's public words.
#[derive(Debug, Clone, Copy, PartialEq, Eq)]
pub struct AttackPublicLayout {
    pub cont: u32,
    pub size: u32,
    pub out_hash: [u32; 4],
    pub attack_piece: u32,
    pub out_attack_result: u32,
}

/// The word at `index` of `words`, if there is one.
fn word_at(words: &Vec<u64>, index: u32) -> (r: Option<u64>)
    ensures
        r == (if (index as int) < words@.len() {
            Some(words@[index as int])
        } else {
            None::<u64>
        }),
{
    let i = index as usize;
    if i < words.len() {
        Some(words[i])
    } else {
        None
    }
}

/// Every index of the board layout falls inside `words`.
pub open spec fn chessboard_layout_fits(words: Seq<u64>, layout: ChessboardPublicLayout) -> bool {
    &&& (layout.cont as int) < words.len()
    &&& (layout.size as int) < words.len()
    &&& forall|i: int| 0 <= i < 4 ==> (#[trigger] layout.out_hash[i] as int) < words.len()
}

/// Every index of the attack layout falls inside `words`.
pub open spec fn attack_layout_fits(words: Seq<u64>, layout: AttackPublicLayout) -> bool {
    &&& (layout.cont as int) < words.len()
    &&& (layout.size as int) < words.len()
    &&& forall|i: int| 0 <= i < 4 ==> (#[trigger] layout.out_hash[i] as int) < words.len()
    &&& (layout.attack_piece as int) < words.len()
    &&& (layout.out_attack_result as int) < words.len()
}

/// The board's public values read at the layout's positions, when they all
/// fall inside `words`.
pub open spec fn chessboard_public_at(words: Seq<u64>, layout: ChessboardPublicLayout) -> Option<
    InitChessboardPublic,
> {
    if chessboard_layout_fits(words, layout) {
        Some(
            InitChessboardPublic {
                cont: words[layout.cont as int],
                size: words[layout.size as int],
                out_hash: [
                    words[layout.out_hash[0] as int],
                    words[layout.out_hash[1] as int],
                    words[layout.out_hash[2] as int],
                    words[layout.out_hash[3] as int],
                ],
            },
        )
    } else {
        None
    }
}

/// The attack's public values read at the layout's positions, when they all
/// fall inside `words`.
pub open spec fn attack_public_at(words: Seq<u64>, layout: AttackPublicLayout) -> Option<
    AttackCircuitPublic,
> {
    if attack_layout_fits(words, layout) {
        Some(
            AttackCircuitPublic {
                cont: words[layout.cont as int],
                size: words[layout.size as int],
                out_hash: [
                    words[layout.out_hash[0] as int],
                    words[layout.out_hash[1] as int],
                    words[layout.out_hash[2] as int],
                    words[layout.out_hash[3] as int],
                ],
                attack_piece: words[layout.attack_piece as int],
                out_attack_result: words[layout.out_attack_result as int],
            },
        )
    } else {
        None
    }
}

impl InitChessboardPublic {
    /// Reads the public values of a board proof from its public words, at the
    /// positions of the circuit's public wires; `None` when a position lies
    /// past the words.
    pub fn from_public_words(proof: &InitChessboardProof, layout: &ChessboardPublicLayout) -> (r:
        Option<Self>)
        ensures
            r == chessboard_public_at(proof.public_words@, *layout),
            r is Some <==> chessboard_layout_fits(proof.public_words@, *layout),
            r matches Some(p) ==> {
                let words = proof.public_words@;
                &&& p.cont == words[layout.cont as int]
                &&& p.size == words[layout.size as int]
                &&& forall|i: int|
                    0 <= i < 4 ==> #[trigger] p.out_hash[i] == words[layout.out_hash[i] as int]
            },
    {
        let words = &proof.public_words;
        let cont = match word_at(words, layout.cont) {
            Some(v) => v,
            None => return None,
        };
        let size = match word_at(words, layout.size) {
            Some(v) => v,
            None => return None,
        };
        let mut out_hash = [0u64;4];
        let mut i: usize = 0;
        while i < 4
            invariant
                i <= 4,
                words@ == proof.public_words@,
                forall|k: int|
                    0 <= k < i ==> (#[trigger] layout.out_hash[k] as int) < words@.len()
                        && out_hash[k] == words@[layout.out_hash[k] as int],
            decreases 4 - i,
        {
            match word_at(words, layout.out_hash[i]) {
                Some(v) => {
                    out_hash[i] = v;
                },
                None => {
                    assert(!((layout.out_hash[i as int] as int) < words@.len()));
                    return None;
                },
            }
            i = i + 1;
        }
        proof {
            assert(out_hash =~= [
                words@[layout.out_hash[0] as int],
                words@[layout.out_hash[1] as int],
                words@[layout.out_hash[2] as int],
                words@[layout.out_hash[3] as int],
            ]);
        }
        Some(InitChessboardPublic { cont, size, out_hash })
    }
}

impl AttackCircuitPublic {
    /// Reads the public values of an attack proof from its public words, at
    /// the positions of the circuit's public wires; `None` when a position
    /// lies past the words.
    pub fn from_public_words(proof: &AttackCircuitProof, layout: &AttackPublicLayout) -> (r:
        Option<Self>)
        ensures
            r == attack_public_at(proof.public_words@, *layout),
            r is Some <==> attack_layout_fits(proof.public_words@, *layout),
            r matches Some(p) ==> {
                let words = proof.public_words@;
                &&& p.cont == words[layout.cont as int]
                &&& p.size == words[layout.size as int]
                &&& forall|i: int|
                    0 <= i < 4 ==> #[trigger] p.out_hash[i] == words[layout.out_hash[i] as int]
                &&& p.attack_piece == words[layout.attack_piece as int]
                &&& p.out_attack_result == words[layout.out_attack_result as int]
            },
    {
        let words = &proof.public_words;
        let cont = match word_at(words, layout.cont) {
            Some(v) => v,
            None => return None,
        };
        let size = match word_at(words, layout.size) {
            Some(v) => v,
            None => return None,
        };
        let mut out_hash = [0u64;4];
        let mut i: usize = 0;
        while i < 4
            invariant
                i <= 4,
                words@ == proof.public_words@,
                forall|k: int|
                    0 <= k < i ==> (#[trigger] layout.out_hash[k] as int) < words@.len()
                        && out_hash[k] == words@[layout.out_hash[k] as int],
            decreases 4 - i,
        {
            match word_at(words, layout.out_hash[i]) {
                Some(v) => {
                    out_hash[i] = v;
                },
                None => {
                    assert(!((layout.out_hash[i as int] as int) < words@.len()));
                    return None;
                },
            }
            i = i + 1;
        }
        let attack_piece = match word_at(words, layout.attack_piece) {
            Some(v) => v,
            None => return None,
        };
        let out_attack_result = match word_at(words, layout.out_attack_result) {
            Some(v) => v,
            None => return None,
        };
        proof {
            assert(out_hash =~= [
                words@[layout.out_hash[0] as int],
                words@[layout.out_hash[1] as int],
                words@[layout.out_hash[2] as int],
                words@[layout.out_hash[3] as int],
            ]);
        }
        Some(AttackCircuitPublic { cont, size, out_hash, attack_piece, out_attack_result })
    }
}

/// The coordinates and nonce bytes that the prover hashes for a board: the
/// first eight coordinates, then the nonce.
pub open spec fn board_message_bytes(pieces: Seq<u8>, nonce: Seq<u8>) -> Seq<u8> {
    pieces.subrange(0, 8) + nonce
}

/// The four nonce words: each eight nonce bytes in little-endian order.
pub open spec fn nonce_words_of(nonce: Seq<u8>) -> Seq<u64> {
    Seq::new(4, |i: int| le_word_of(nonce.subrange(8 * i, 8 * i + 8)))
}

/// `w` holds the wire values that the prover fills in for a board of `cont`
/// pieces at `pieces` on `size` cells, with the nonce `nonce`: the eight
/// coordinates packed into one word, the nonce in four words, and the SHA-256
/// digest of coordinates and nonce in four big-endian words.
pub open spec fn is_board_witness(
    w: ChessboardWitness,
    cont: u64,
    size: u64,
    pieces: Seq<u8>,
    nonce: Seq<u8>,
) -> bool {
    &&& w.cont == cont
    &&& w.size == size
    &&& w.piece == le_word_of(pieces)
    &&& w.nonce@ == nonce_words_of(nonce)
    &&& w.out_hash@ == be_words_of(sha256_of(board_message_bytes(pieces, nonce)))
}

/// The rules of a board: one to eight pieces, at most 256 cells and no fewer
/// cells than pieces, each piece on a cell of the board and no two pieces on
/// one cell.
pub open spec fn board_rules(cont: u64, size: u64, coords: Seq<u8>) -> bool {
    &&& cont < 9
    &&& cont != 0
    &&& size < 257
    &&& cont <= size
    &&& forall|i: int| 0 <= i < coords.len() && i < cont ==> (#[trigger] coords[i] as u64) < size
    &&& forall|i: int, j: int|
        0 <= i < j < coords.len() && j < cont ==> #[trigger] coords[i] != #[trigger] coords[j]
}

/// Whether the attacked cell holds one of the eight coordinates.
pub open spec fn attack_hits(pieces: Seq<u8>, attack_piece: u64) -> bool {
    exists|i: int| 0 <= i < pieces.len() && #[trigger] pieces[i] as u64 == attack_piece
}

/// Whether the attacked cell lies outside the board.
pub open spec fn attack_out_of_bounds(size: u64, attack_piece: u64) -> bool {
    attack_piece >= size || attack_piece >= 256
}

/// `w` holds the wire values that the prover fills in for an attack on the
/// cell `attack_piece` against the board of `cont` pieces at `pieces` on
/// `size` cells committed with `nonce`.
pub open spec fn is_attack_witness(
    w: AttackWitness,
    cont: u64,
    size: u64,
    pieces: Seq<u8>,
    nonce: Seq<u8>,
    attack_piece: u64,
) -> bool {
    &&& is_board_witness(w.board, cont, size, pieces, nonce)
    &&& w.attack_piece == attack_piece
    &&& w.out_attack_result == (if attack_hits(pieces, attack_piece) {
        1u64
    } else {
        0u64
    })
}

/// `rand::random`: 32 random bytes; nothing is promised of their value.
#[verifier::external_body]
fn random_nonce() -> (nonce: [u8; 32]) {
    rand::random()
}

/// The board wire values for `cont` pieces at the first eight coordinates of
/// `pieces` on `size` cells, with the nonce `nonce`.
pub fn chessboard_witness(cont: u64, size: u64, pieces: &[u8], nonce: &[u8; 32]) -> (w:
    ChessboardWitness)
    requires
        pieces@.len() >= 8,
    ensures
        is_board_witness(w, cont, size, pieces@, nonce@),
        sha256_of(board_message_bytes(pieces@, nonce@)).len() == 32,
        w.cont == cont,
        w.size == size,
        w.piece == le_word_of(pieces@),
        forall|i: int|
            0 <= i < 4 ==> #[trigger] w.nonce[i] == le_word_of(nonce@.subrange(8 * i, 8 * i + 8)),
        forall|i: int|
            0 <= i < 4 ==> #[trigger] w.out_hash[i] == be_word_of(
                sha256_of(pieces@.subrange(0, 8) + nonce@).subrange(8 * i, 8 * i + 8),
            ),
{
    let piece = pack_pieces(pieces);
    let nonce_words: [u64; 4] = [
        word_from_le_bytes(nonce, 0),
        word_from_le_bytes(nonce, 8),
        word_from_le_bytes(nonce, 16),
        word_from_le_bytes(nonce, 24),
    ];
    assert(nonce_words@ =~= nonce_words_of(nonce@));
    let mut msg: Vec<u8> = Vec::new();
    let mut i: usize = 0;
    while i < 8
        invariant
            i <= 8,
            pieces@.len() >= 8,
            msg@ == pieces@.subrange(0, i as int),
        decreases 8 - i,
    {
        msg.push(pieces[i]);
        assert(pieces@.subrange(0, i + 1) =~= pieces@.subrange(0, i as int).push(pieces@[i as int]));
        i = i + 1;
    }
    let mut j: usize = 0;
    while j < 32
        invariant
            j <= 32,
            msg@ == pieces@.subrange(0, 8) + nonce@.subrange(0, j as int),
        decreases 32 - j,
    {
        msg.push(nonce[j]);
        assert(nonce@.subrange(0, j + 1) =~= nonce@.subrange(0, j as int).push(nonce@[j as int]));
        j = j + 1;
    }
    assert(nonce@.subrange(0, 32) =~= nonce@);
    assert(msg@ == board_message_bytes(pieces@, nonce@));
    let digest = sha256(msg.as_slice());
    let out_hash: [u64; 4] = [
        word_from_be_bytes(&digest, 0),
        word_from_be_bytes(&digest, 8),
        word_from_be_bytes(&digest, 16),
        word_from_be_bytes(&digest, 24),
    ];
    assert(out_hash@ =~= be_words_of(digest@));
    ChessboardWitness { cont, size, piece, nonce: nonce_words, out_hash }
}

/// The board wire values for `cont` pieces at the first eight coordinates of
/// `pieces` on `size` cells, with a fresh random nonce, and that nonce (which
/// the player keeps for the attack proofs on this board).
pub fn init_chessboard_witness(cont: u64, size: u64, pieces: &[u8]) -> (r: (
    ChessboardWitness,
    [u8; 32],
))
    requires
        pieces@.len() >= 8,
    ensures
        is_board_witness(r.0, cont, size, pieces@, r.1@),
        sha256_of(board_message_bytes(pieces@, r.1@)).len() == 32,
        r.0.cont == cont,
        r.0.size == size,
        r.0.piece == le_word_of(pieces@),
        forall|i: int|
            0 <= i < 4 ==> #[trigger] r.0.nonce[i] == le_word_of(r.1@.subrange(8 * i, 8 * i + 8)),
        forall|i: int|
            0 <= i < 4 ==> #[trigger] r.0.out_hash[i] == be_word_of(
                sha256_of(pieces@.subrange(0, 8) + r.1@).subrange(8 * i, 8 * i + 8),
            ),
{
    let nonce = random_nonce();
    let w = chessboard_witness(cont, size, pieces, &nonce);
    (w, nonce)
}

/// 1 when one of the eight coordinates equals `attack_piece`, else 0.
pub fn attack_result(pieces: &[u8; 8], attack_piece: u64) -> (r: u64)
    ensures
        r == (if exists|i: int| 0 <= i < 8 && #[trigger] pieces@[i] as u64 == attack_piece {
            1u64
        } else {
            0u64
        }),
        r == (if attack_hits(pieces@, attack_piece) {
            1u64
        } else {
            0u64
        }),
{
    let mut result: u64 = 0;
    let mut i: usize = 0;
    while i < 8
        invariant
            i <= 8,
            pieces@.len() == 8,
            result == (if exists|k: int| 0 <= k < i && #[trigger] pieces@[k] as u64 == attack_piece {
                1u64
            } else {
                0u64
            }),
        decreases 8 - i,
    {
        let coord = pieces[i] as u64;
        if attack_piece == coord {
            result = 1;
        }
        i = i + 1;
    }
    result
}

/// The attack wire values for an attack on `attack_piece` against the board
/// of `cont` pieces at `pieces` on `size` cells committed with `nonce`; an
/// `OutsideError` when the attacked cell lies outside the board.
pub fn attack_witness(
    cont: &u64,
    size: &u64,
    pieces: &[u8; 8],
    nonce: &[u8; 32],
    attack_piece: &u64,
) -> (r: Result<AttackWitness, OutsideError>)
    ensures
        r is Err <==> attack_out_of_bounds(*size, *attack_piece),
        r is Err <==> (*attack_piece >= *size || *attack_piece >= 256),
        r matches Ok(w) ==> {
            &&& w.board.cont == *cont
            &&& w.board.size == *size
            &&& w.board.piece == le_word_of(pieces@)
            &&& forall|i: int|
                0 <= i < 4 ==> #[trigger] w.board.out_hash[i] == be_word_of(
                    sha256_of(pieces@.subrange(0, 8) + nonce@).subrange(8 * i, 8 * i + 8),
                )
            &&& w.attack_piece == *attack_piece
            &&& w.out_attack_result == (if exists|i: int|
                0 <= i < 8 && #[trigger] pieces@[i] as u64 == *attack_piece {
                1u64
            } else {
                0u64
            })
        },
        r matches Err(e) ==> e@ == "攻击超出界限"@,
        r matches Ok(w) ==> is_attack_witness(w, *cont, *size, pieces@, nonce@, *attack_piece),
        sha256_of(board_message_bytes(pieces@, nonce@)).len() == 32,
{
    let board = chessboard_witness(*cont, *size, pieces, nonce);
    if *attack_piece >= *size || *attack_piece >= 256u64 {
        return Err(OutsideError::new("攻击超出界限"));
    }
    let out_attack_result = attack_result(pieces, *attack_piece);
    Ok(AttackWitness { board, attack_piece: *attack_piece, out_attack_result })
}

/// The board circuit accepts the wire values that the prover fills in for a
/// board exactly when the board obeys the rules: a board proof can be made
/// for every board that obeys them and for no other.
pub proof fn lemma_board_witness_accepted_iff_rules(
    w: ChessboardWitness,
    cont: u64,
    size: u64,
    pieces: Seq<u8>,
    nonce: Seq<u8>,
)
    requires
        pieces.len() >= 8,
        nonce.len() == 32,
        is_board_witness(w, cont, size, pieces, nonce),
    ensures
        init_chessboard_holds(w) <==> board_rules(cont, size, pieces.subrange(0, 8)),
{
    let bytes = board_message_bytes(pieces, nonce);
    let ws = board_message(w);
    assert forall|i: int| 0 <= i < ws.len() implies #[trigger] ws[i] == le_word_of(
        bytes.subrange(8 * i, 8 * i + 8),
    ) by {
        if i == 0 {
            assert(bytes.subrange(0, 8) =~= pieces.subrange(0, 8));
        } else {
            let k = i - 1;
            assert(ws[i] == w.nonce@[k]);
            assert(bytes.subrange(8 * i, 8 * i + 8) =~= nonce.subrange(8 * k, 8 * k + 8));
        }
    }
    lemma_words_le_bytes_of_blocks(ws, bytes);
    let coords = pieces.subrange(0, 8);
    let cw = piece_coords(w.piece);
    lemma_le_word_bytes(
        pieces[0],
        pieces[1],
        pieces[2],
        pieces[3],
        pieces[4],
        pieces[5],
        pieces[6],
        pieces[7],
    );
    assert forall|i: int| 0 <= i < 8 implies #[trigger] cw[i] == coords[i] as u64 by {}
    assert(sha256_holds(board_message(w), w.out_hash@));
    assert(pieces_in_range(cw, cont, size) <==> (forall|i: int|
        0 <= i < coords.len() && i < cont ==> (#[trigger] coords[i] as u64) < size)) by {
        if pieces_in_range(cw, cont, size) {
            assert forall|i: int| 0 <= i < coords.len() && i < cont implies (
            #[trigger] coords[i] as u64) < size by {
                assert(cw[i] == coords[i] as u64);
            }
        }
        if forall|i: int| 0 <= i < coords.len() && i < cont ==> (#[trigger] coords[i] as u64) < size {
            assert forall|i: int| 0 <= i < cw.len() implies !(i < cont && #[trigger] cw[i] >= size) by {
                assert(cw[i] == coords[i] as u64);
            }
        }
    }
    assert(pieces_distinct(cw, cont) <==> (forall|i: int, j: int|
        0 <= i < j < coords.len() && j < cont ==> #[trigger] coords[i] != #[trigger] coords[j])) by {
        if pieces_distinct(cw, cont) {
            assert forall|i: int, j: int| 0 <= i < j < coords.len() && j < cont implies #[trigger] coords[i]
                != #[trigger] coords[j] by {
                assert(cw[i] == coords[i] as u64);
                assert(cw[j] == coords[j] as u64);
            }
        }
        if forall|i: int, j: int|
            0 <= i < j < coords.len() && j < cont ==> #[trigger] coords[i] != #[trigger] coords[j] {
            assert forall|i: int, j: int| 0 <= i < j < cw.len() implies !(i < cont && j < cont
                && #[trigger] cw[i] == #[trigger] cw[j]) by {
                assert(cw[i] == coords[i] as u64);
                assert(cw[j] == coords[j] as u64);
            }
        }
    }
}

/// An attack proved with the nonce of a board proof carries the board
/// proof's wire values, its hash among them: the attack is bound to the
/// committed board.
pub proof fn lemma_attack_binds_board(
    board: ChessboardWitness,
    attack: AttackWitness,
    cont: u64,
    size: u64,
    pieces: Seq<u8>,
    nonce: Seq<u8>,
)
    requires
        is_board_witness(board, cont, size, pieces, nonce),
        is_board_witness(attack.board, cont, size, pieces, nonce),
    ensures
        attack.board == board,
{
    assert(attack.board.nonce =~= board.nonce);
    assert(attack.board.out_hash =~= board.out_hash);
}

/// The attack circuit accepts the wire values that the prover fills in for
/// an attack on a cell of the board exactly when the board obeys the rules;
/// the accepted values carry the attacked cell and the true outcome.
pub proof fn lemma_attack_witness_accepted_iff_rules(
    w: AttackWitness,
    cont: u64,
    size: u64,
    pieces: Seq<u8>,
    nonce: Seq<u8>,
    attack_piece: u64,
)
    requires
        pieces.len() == 8,
        nonce.len() == 32,
        !attack_out_of_bounds(size, attack_piece),
        is_attack_witness(w, cont, size, pieces, nonce, attack_piece),
    ensures
        attack_holds(w) <==> board_rules(cont, size, pieces),
        w.attack_piece == attack_piece,
        w.out_attack_result == (if attack_hits(pieces, attack_piece) {
            1u64
        } else {
            0u64
        }),
        w.out_attack_result == (if exists|i: int|
            0 <= i < 8 && #[trigger] pieces[i] as u64 == attack_piece {
            1u64
        } else {
            0u64
        }),
{
    lemma_board_witness_accepted_iff_rules(w.board, cont, size, pieces, nonce);
    assert(pieces.subrange(0, 8) =~= pieces);
    let cw = piece_coords(w.board.piece);
    lemma_le_word_bytes(
        pieces[0],
        pieces[1],
        pieces[2],
        pieces[3],
        pieces[4],
        pieces[5],
        pieces[6],
        pieces[7],
    );
    assert forall|i: int| 0 <= i < 8 implies #[trigger] cw[i] == pieces[i] as u64 by {}
    assert(coords_hit(w.board.piece, attack_piece) <==> attack_hits(pieces, attack_piece)) by {
        if coords_hit(w.board.piece, attack_piece) {
            let j = choose|j: int| 0 <= j < 8 && #[trigger] cw[j] == attack_piece;
            assert(pieces[j] as u64 == attack_piece);
        }
        if attack_hits(pieces, attack_piece) {
            let j = choose|j: int| 0 <= j < pieces.len() && #[trigger] pieces[j] as u64 == attack_piece;
            assert(cw[j] == attack_piece);
        }
    }
}

/// The public words hold the board's public values (count, size and hash)
/// at the layout's positions.
pub open spec fn words_place_board(
    words: Seq<u64>,
    layout: ChessboardPublicLayout,
    w: ChessboardWitness,
) -> bool {
    &&& chessboard_layout_fits(words, layout)
    &&& words[layout.cont as int] == w.cont
    &&& words[layout.size as int] == w.size
    &&& forall|i: int| 0 <= i < 4 ==> words[#[trigger] layout.out_hash[i] as int] == w.out_hash[i]
}

/// The public words hold the attack's public values (count, size, hash,
/// attacked cell and result) at the layout's positions.
pub open spec fn words_place_attack(
    words: Seq<u64>,
    layout: AttackPublicLayout,
    w: AttackWitness,
) -> bool {
    &&& attack_layout_fits(words, layout)
    &&& words[layout.cont as int] == w.board.cont
    &&& words[layout.size as int] == w.board.size
    &&& forall|i: int|
        0 <= i < 4 ==> words[#[trigger] layout.out_hash[i] as int] == w.board.out_hash[i]
    &&& words[layout.attack_piece as int] == w.attack_piece
    &&& words[layout.out_attack_result as int] == w.out_attack_result
}

/// Reading a board proof whose public words hold the board's wire values at
/// the circuit's positions gives back the count, the size and the hash.
pub proof fn lemma_board_public_read_back(
    words: Seq<u64>,
    layout: ChessboardPublicLayout,
    w: ChessboardWitness,
)
    requires
        words_place_board(words, layout, w),
    ensures
        chessboard_public_at(words, layout) == Some(
            InitChessboardPublic { cont: w.cont, size: w.size, out_hash: w.out_hash },
        ),
{
    let p = chessboard_public_at(words, layout)->0;
    assert(words[layout.out_hash[0] as int] == w.out_hash[0]);
    assert(words[layout.out_hash[1] as int] == w.out_hash[1]);
    assert(words[layout.out_hash[2] as int] == w.out_hash[2]);
    assert(words[layout.out_hash[3] as int] == w.out_hash[3]);
    assert(p.out_hash =~= w.out_hash);
}

/// Reading an attack proof whose public words hold the attack's wire values
/// at the circuit's positions gives back the count, the size, the hash, the
/// attacked cell and the result.
pub proof fn lemma_attack_public_read_back(
    words: Seq<u64>,
    layout: AttackPublicLayout,
    w: AttackWitness,
)
    requires
        words_place_attack(words, layout, w),
    ensures
        attack_public_at(words, layout) == Some(
            AttackCircuitPublic {
                cont: w.board.cont,
                size: w.board.size,
                out_hash: w.board.out_hash,
                attack_piece: w.attack_piece,
                out_attack_result: w.out_attack_result,
            },
        ),
{
    let p = attack_public_at(words, layout)->0;
    assert(words[layout.out_hash[0] as int] == w.board.out_hash[0]);
    assert(words[layout.out_hash[1] as int] == w.board.out_hash[1]);
    assert(words[layout.out_hash[2] as int] == w.board.out_hash[2]);
    assert(words[layout.out_hash[3] as int] == w.board.out_hash[3]);
    assert(p.out_hash =~= w.board.out_hash);
}

/// An attack hits exactly when one of the eight coordinates, the last one
/// included, is the attacked cell.
pub proof fn lemma_attack_hits_means(pieces: Seq<u8>, attack_piece: u64)
    requires
        pieces.len() == 8,
    ensures
        attack_hits(pieces, attack_piece) == (exists|i: int|
            0 <= i < 8 && #[trigger] pieces[i] as u64 == attack_piece),
        pieces[7] as u64 == attack_piece ==> attack_hits(pieces, attack_piece),
{
    if pieces[7] as u64 == attack_piece {
        assert(0 <= 7 < pieces.len() && pieces[7] as u64 == attack_piece);
    }
}

/// An attack is refused exactly when the cell is not below the board's size
/// or not below 256; every cell below both, cell 0 included, is accepted.
pub proof fn lemma_attack_out_of_bounds_means(size: u64, attack_piece: u64)
    ensures
        attack_out_of_bounds(size, attack_piece) == (attack_piece >= size || attack_piece >= 256),
        size > 0 ==> !attack_out_of_bounds(size, 0),
{
}

} // verus!
