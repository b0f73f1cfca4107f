//! The battleship board circuit, as the relation that its assertions impose
//! on the values of its wires.
//!
//! The board circuit has the inputs `cont` (number of pieces) and `size`
//! (number of cells), one witness word `piece` holding up to eight piece
//! coordinates (one byte each, little-endian), four witness words of nonce
//! and four public words `out_hash`.  It asserts:
//! - A: `cont < 9`; `cont != 0`; B: `size < 257`; C: `cont <= size`;
//! - the SHA-256 digest of `piece || nonce` (each word in little-endian
//!   byte order) equals `out_hash` (each word big-endian);
//! - D: each of the first `cont` coordinates is below `size`;
//! - E: no two of the first `cont` coordinates are equal.
use crate::digest::sha256;
use crate::digest::sha256_of;
use crate::words::be_word_of;
use crate::words::be_words_of;
use crate::words::byte_of;
use crate::words::extract_byte;
use crate::words::push_le_bytes;
use crate::words::word_from_be_bytes;
use crate::words::words_le_bytes;
use vstd::prelude::*;

verus! {

/// The values of the board circuit's wires that the prover supplies.
#[derive(Clone, Copy, Debug, PartialEq, Eq)]
pub struct ChessboardWitness {
    pub cont: u64,
    pub size: u64,
    pub piece: u64,
    pub nonce: [u64; 4],
    pub out_hash: [u64; 4],
}

/// The values of the attack circuit's wires: those of the board, the
/// attacked cell, and the result (1 for a hit, 0 for a miss).
#[derive(Clone, Copy, Debug, PartialEq, Eq)]
pub struct AttackWitness {
    pub board: ChessboardWitness,
    pub attack_piece: u64,
    pub out_attack_result: u64,
}

/// The eight coordinates that the circuit extracts from the piece word.
pub open spec fn piece_coords(piece: u64) -> Seq<u64> {
    Seq::new(8, |j: int| byte_of(piece, j as u64))
}

/// D: every coordinate among the first `cont` is below `size`.
pub open spec fn pieces_in_range(piece: Seq<u64>, cont: u64, size: u64) -> bool {
    forall|i: int| 0 <= i < piece.len() ==> !(i < cont && #[trigger] piece[i] >= size)
}

/// E: no two coordinates among the first `cont` are equal.
pub open spec fn pieces_distinct(piece: Seq<u64>, cont: u64) -> bool {
    forall|i: int, j: int|
        0 <= i < j < piece.len() ==> !(i < cont && j < cont && #[trigger] piece[i]
            == #[trigger] piece[j])
}

/// What `chessboard_check` asserts: D and E.
pub open spec fn chessboard_check_holds(piece: Seq<u64>, cont: u64, size: u64) -> bool {
    pieces_in_range(piece, cont, size) && pieces_distinct(piece, cont)
}

/// What `assert_sha256` asserts: the SHA-256 digest of the message, each word
/// taken in little-endian byte order, is `hash`, each word big-endian.
pub open spec fn sha256_holds(message: Seq<u64>, hash: Seq<u64>) -> bool {
    hash == be_words_of(sha256_of(words_le_bytes(message)))
}

/// The message that the board circuit hashes: the piece word, then the nonce.
pub open spec fn board_message(w: ChessboardWitness) -> Seq<u64> {
    seq![w.piece, w.nonce[0], w.nonce[1], w.nonce[2], w.nonce[3]]
}

/// Every assertion of the board circuit holds of `w`.
pub open spec fn init_chessboard_holds(w: ChessboardWitness) -> bool {
    &&& w.cont < 9
    &&& w.cont != 0
    &&& w.size < 257
    &&& w.cont <= w.size
    &&& sha256_holds(board_message(w), w.out_hash@)
    &&& chessboard_check_holds(piece_coords(w.piece), w.cont, w.size)
}

/// Some coordinate among the eight of `piece` is the cell `cell`.
pub open spec fn coords_hit(piece: u64, cell: u64) -> bool {
    exists|j: int| 0 <= j < 8 && #[trigger] piece_coords(piece)[j] == cell
}

/// Every assertion of the attack circuit holds of `w`: those of the board,
/// F: the attacked cell is below `size`, G: it is below 256, and H: the
/// result is 1 when one of the eight coordinates is the attacked cell and 0
/// otherwise.
pub open spec fn attack_holds(w: AttackWitness) -> bool {
    &&& init_chessboard_holds(w.board)
    &&& w.attack_piece < w.board.size
    &&& w.attack_piece < 256
    &&& w.out_attack_result == (if coords_hit(w.board.piece, w.attack_piece) {
        1u64
    } else {
        0u64
    })
}

/// The SHA-256 assertion, written out word by word: it holds exactly when
/// each of the four hash words is the big-endian word of the matching eight
/// digest bytes (the digest being 32 bytes, as the wrapper returns it).
pub proof fn lemma_sha256_holds_means(message: Seq<u64>, hash: Seq<u64>)
    requires
        hash.len() == 4,
        sha256_of(words_le_bytes(message)).len() == 32,
    ensures
        sha256_holds(message, hash) == (forall|i: int|
            0 <= i < 4 ==> #[trigger] hash[i] == be_word_of(
                sha256_of(words_le_bytes(message)).subrange(8 * i, 8 * i + 8),
            )),
{
    let d = sha256_of(words_le_bytes(message));
    let words = be_words_of(d);
    assert(words.len() == 4);
    if forall|i: int|
        0 <= i < 4 ==> #[trigger] hash[i] == be_word_of(d.subrange(8 * i, 8 * i + 8)) {
        assert(hash =~= words);
    }
    if sha256_holds(message, hash) {
        assert forall|i: int| 0 <= i < 4 implies #[trigger] hash[i] == be_word_of(
            d.subrange(8 * i, 8 * i + 8),
        ) by {
            assert(hash[i] == words[i]);
        }
    }
}

/// The board circuit's assertions, written out: one to eight pieces, at most
/// 256 cells and no fewer cells than pieces, all four hash words those of
/// the digest of piece word and nonce, each of the first `cont` coordinates
/// (bytes of the piece word) below `size`, and no two of them equal.
pub proof fn lemma_init_chessboard_holds_means(w: ChessboardWitness)
    requires
        sha256_of(words_le_bytes(board_message(w))).len() == 32,
    ensures
        init_chessboard_holds(w) == {
            &&& w.cont < 9
            &&& w.cont != 0
            &&& w.size < 257
            &&& w.cont <= w.size
            &&& forall|i: int|
                0 <= i < 4 ==> #[trigger] w.out_hash[i] == be_word_of(
                    sha256_of(
                        words_le_bytes(
                            seq![w.piece, w.nonce[0], w.nonce[1], w.nonce[2], w.nonce[3]],
                        ),
                    ).subrange(8 * i, 8 * i + 8),
                )
            &&& forall|i: int| 0 <= i < 8 && i < w.cont ==> #[trigger] byte_of(w.piece, i as u64) < w.size
            &&& forall|i: int, j: int|
                0 <= i < j < 8 && j < w.cont ==> #[trigger] byte_of(w.piece, i as u64)
                    != #[trigger] byte_of(w.piece, j as u64)
        },
{
    lemma_sha256_holds_means(board_message(w), w.out_hash@);
    let cw = piece_coords(w.piece);
    assert(board_message(w) == seq![w.piece, w.nonce[0], w.nonce[1], w.nonce[2], w.nonce[3]]);
    assert forall|i: int| 0 <= i < 4 implies #[trigger] w.out_hash@[i] == w.out_hash[i] by {}
    assert(pieces_in_range(cw, w.cont, w.size) == (forall|i: int|
        0 <= i < 8 && i < w.cont ==> #[trigger] byte_of(w.piece, i as u64) < w.size)) by {
        if pieces_in_range(cw, w.cont, w.size) {
            assert forall|i: int| 0 <= i < 8 && i < w.cont implies #[trigger] byte_of(
                w.piece,
                i as u64,
            ) < w.size by {
                assert(cw[i] == byte_of(w.piece, i as u64));
            }
        }
        if forall|i: int| 0 <= i < 8 && i < w.cont ==> #[trigger] byte_of(w.piece, i as u64) < w.size {
            assert forall|i: int| 0 <= i < cw.len() implies !(i < w.cont && #[trigger] cw[i]
                >= w.size) by {
                assert(cw[i] == byte_of(w.piece, i as u64));
            }
        }
    }
    assert(pieces_distinct(cw, w.cont) == (forall|i: int, j: int|
        0 <= i < j < 8 && j < w.cont ==> #[trigger] byte_of(w.piece, i as u64)
            != #[trigger] byte_of(w.piece, j as u64))) by {
        if pieces_distinct(cw, w.cont) {
            assert forall|i: int, j: int| 0 <= i < j < 8 && j < w.cont implies #[trigger] byte_of(
                w.piece,
                i as u64,
            ) != #[trigger] byte_of(w.piece, j as u64) by {
                assert(cw[i] == byte_of(w.piece, i as u64));
                assert(cw[j] == byte_of(w.piece, j as u64));
            }
        }
        if forall|i: int, j: int|
            0 <= i < j < 8 && j < w.cont ==> #[trigger] byte_of(w.piece, i as u64)
                != #[trigger] byte_of(w.piece, j as u64) {
            assert forall|i: int, j: int| 0 <= i < j < cw.len() implies !(i < w.cont && j < w.cont
                && #[trigger] cw[i] == #[trigger] cw[j]) by {
                assert(cw[i] == byte_of(w.piece, i as u64));
                assert(cw[j] == byte_of(w.piece, j as u64));
            }
        }
    }
}

/// The attack circuit's assertions, written out: the board's, the attacked
/// cell below `size` and below 256, and the result 1 exactly when one of all
/// eight bytes of the piece word is the attacked cell, 0 otherwise.
pub proof fn lemma_attack_holds_means(w: AttackWitness)
    ensures
        attack_holds(w) == {
            &&& init_chessboard_holds(w.board)
            &&& w.attack_piece < w.board.size
            &&& w.attack_piece < 256
            &&& w.out_attack_result == (if exists|j: int|
                0 <= j < 8 && #[trigger] byte_of(w.board.piece, j as u64) == w.attack_piece {
                1u64
            } else {
                0u64
            })
        },
{
    let cw = piece_coords(w.board.piece);
    if coords_hit(w.board.piece, w.attack_piece) {
        let j = choose|j: int| 0 <= j < 8 && #[trigger] cw[j] == w.attack_piece;
        assert(byte_of(w.board.piece, j as u64) == w.attack_piece);
    }
    if exists|j: int| 0 <= j < 8 && #[trigger] byte_of(w.board.piece, j as u64) == w.attack_piece {
        let j = choose|j: int|
            0 <= j < 8 && #[trigger] byte_of(w.board.piece, j as u64) == w.attack_piece;
        assert(cw[j] == w.attack_piece);
    }
}

/// Whether the coordinates `piece` satisfy D and E for `cont` pieces on a
/// board of `size` cells.
pub fn chessboard_check(piece: &Vec<u64>, cont: u64, size: u64) -> (ok: bool)
    ensures
        ok == chessboard_check_holds(piece@, cont, size),
        ok == ((forall|i: int| 0 <= i < piece@.len() && i < cont ==> #[trigger] piece@[i] < size)
            && (forall|i: int, j: int|
            0 <= i < j < piece@.len() && j < cont ==> #[trigger] piece@[i] != #[trigger] piece@[j])),
{
    let n = piece.len();
    let mut i: usize = 0;
    while i < n
        invariant
            n == piece@.len(),
            i <= n,
            forall|k: int| 0 <= k < i ==> !(k < cont && #[trigger] piece@[k] >= size),
            forall|k: int, l: int|
                0 <= k < i && k < l < n ==> !(k < cont && l < cont && #[trigger] piece@[k]
                    == #[trigger] piece@[l]),
        decreases n - i,
    {
        if (i as u64) < cont && piece[i] >= size {
            return false;
        }
        let mut j: usize = i + 1;
        while j < n
            invariant
                n == piece@.len(),
                i < n,
                i < j <= n,
                forall|l: int|
                    i < l < j ==> !(i < cont && l < cont && piece@[i as int] == #[trigger] piece@[l]),
            decreases n - j,
        {
            if (i as u64) < cont && (j as u64) < cont && piece[i] == piece[j] {
                return false;
            }
            j = j + 1;
        }
        i = i + 1;
    }
    true
}

/// Whether the SHA-256 digest of `message` (each word in little-endian byte
/// order) equals `hash` (each word in big-endian byte order).
pub fn assert_sha256(message: &[u64], hash: &[u64; 4]) -> (ok: bool)
    requires
        message@.len() * 8 <= usize::MAX,
    ensures
        ok == sha256_holds(message@, hash@),
        ok == (forall|i: int|
            0 <= i < 4 ==> #[trigger] hash@[i] == be_word_of(
                sha256_of(words_le_bytes(message@)).subrange(8 * i, 8 * i + 8),
            )),
        sha256_of(words_le_bytes(message@)).len() == 32,
{
    let mut bytes: Vec<u8> = Vec::new();
    let mut i: usize = 0;
    while i < message.len()
        invariant
            i <= message@.len(),
            bytes@ == words_le_bytes(message@.take(i as int)),
        decreases message@.len() - i,
    {
        proof {
            assert(message@.take(i + 1).drop_last() =~= message@.take(i as int));
        }
        push_le_bytes(&mut bytes, message[i]);
        i = i + 1;
    }
    assert(message@.take(message@.len() as int) =~= message@);
    let digest = sha256(bytes.as_slice());
    let w0 = word_from_be_bytes(&digest, 0);
    let w1 = word_from_be_bytes(&digest, 8);
    let w2 = word_from_be_bytes(&digest, 16);
    let w3 = word_from_be_bytes(&digest, 24);
    let ok = hash[0] == w0 && hash[1] == w1 && hash[2] == w2 && hash[3] == w3;
    proof {
        let words = be_words_of(digest@);
        assert(words.len() == 4);
        assert(words[0] == w0);
        assert(words[1] == w1);
        assert(words[2] == w2);
        assert(words[3] == w3);
        if ok {
            assert(hash@ =~= words);
        }
        lemma_sha256_holds_means(message@, hash@);
    }
    ok
}

/// Whether every assertion of the board circuit holds of `w`: the relation
/// that a proof of the board circuit attests.
pub fn init_chessboard_satisfied(w: &ChessboardWitness) -> (ok: bool)
    ensures
        ok == init_chessboard_holds(*w),
        ok == {
            &&& w.cont < 9
            &&& w.cont != 0
            &&& w.size < 257
            &&& w.cont <= w.size
            &&& forall|i: int|
                0 <= i < 4 ==> #[trigger] w.out_hash[i] == be_word_of(
                    sha256_of(
                        words_le_bytes(
                            seq![w.piece, w.nonce[0], w.nonce[1], w.nonce[2], w.nonce[3]],
                        ),
                    ).subrange(8 * i, 8 * i + 8),
                )
            &&& forall|i: int| 0 <= i < 8 && i < w.cont ==> #[trigger] byte_of(w.piece, i as u64) < w.size
            &&& forall|i: int, j: int|
                0 <= i < j < 8 && j < w.cont ==> #[trigger] byte_of(w.piece, i as u64)
                    != #[trigger] byte_of(w.piece, j as u64)
        },
{
    if !(w.cont < 9) || w.cont == 0 || !(w.size < 257) || !(w.cont <= w.size) {
        return false;
    }
    let message: [u64; 5] = [w.piece, w.nonce[0], w.nonce[1], w.nonce[2], w.nonce[3]];
    assert(message@ =~= board_message(*w));
    if !assert_sha256(&message, &w.out_hash) {
        proof {
            lemma_init_chessboard_holds_means(*w);
        }
        return false;
    }
    proof {
        lemma_init_chessboard_holds_means(*w);
    }
    let mut coords: Vec<u64> = Vec::new();
    let mut j: u64 = 0;
    while j < 8
        invariant
            j <= 8,
            coords@ == piece_coords(w.piece).take(j as int),
        decreases 8 - j,
    {
        let b = extract_byte(w.piece, j);
        coords.push(b);
        assert(piece_coords(w.piece).take(j + 1) =~= piece_coords(w.piece).take(j as int).push(b));
        j = j + 1;
    }
    assert(coords@ =~= piece_coords(w.piece));
    chessboard_check(&coords, w.cont, w.size)
}

/// Whether every assertion of the attack circuit holds of `w`: the relation
/// that a proof of the attack circuit attests.
pub fn attack_satisfied(w: &AttackWitness) -> (ok: bool)
    ensures
        ok == attack_holds(*w),
        ok == {
            &&& init_chessboard_holds(w.board)
            &&& w.attack_piece < w.board.size
            &&& w.attack_piece < 256
            &&& w.out_attack_result == (if exists|j: int|
                0 <= j < 8 && #[trigger] byte_of(w.board.piece, j as u64) == w.attack_piece {
                1u64
            } else {
                0u64
            })
        },
{
    proof {
        lemma_attack_holds_means(*w);
    }
    if !init_chessboard_satisfied(&w.board) {
        return false;
    }
    if !(w.attack_piece < w.board.size) || !(w.attack_piece < 256) {
        return false;
    }
    let mut hit = false;
    let mut j: u64 = 0;
    while j < 8
        invariant
            j <= 8,
            hit == exists|k: int| 0 <= k < j && #[trigger] piece_coords(w.board.piece)[k]
                == w.attack_piece,
        decreases 8 - j,
    {
        let b = extract_byte(w.board.piece, j);
        assert(piece_coords(w.board.piece)[j as int] == b);
        if b == w.attack_piece {
            hit = true;
        }
        j = j + 1;
    }
    let expected: u64 = if hit {
        1
    } else {
        0
    };
    w.out_attack_result == expected
}

} // verus!
