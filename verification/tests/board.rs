use battleship_zkp::circuits::battleship::assert_sha256;
use battleship_zkp::circuits::battleship::chessboard_check;
use battleship_zkp::circuits::battleship::init_chessboard_satisfied;
use battleship_zkp::circuits::battleship::ChessboardWitness;
use battleship_zkp::circuits::test_a::a;
use battleship_zkp::words::extract_byte;
use battleship_zkp::words::pack_pieces;
use battleship_zkp::words::push_le_bytes;
use battleship_zkp::words::word_from_be_bytes;
use battleship_zkp::words::word_from_le_bytes;
use battleship_zkp::zk_manger::battleship::chessboard_witness;
use battleship_zkp::zk_manger::battleship::init_chessboard_witness;

fn counting_nonce() -> [u8; 32] {
    let mut n = [0u8; 32];
    for i in 0..32 {
        n[i] = i as u8;
    }
    n
}

const EXPECTED_HASH: [u64; 4] = [
    0x8bcef9d4e8f5d356,
    0x5897e2a491ec758c,
    0xc9ca041e3b0fb0f2,
    0x1724b0bc20d61289,
];

#[test]
fn pack_pieces_puts_coordinate_i_in_byte_i() {
    assert_eq!(pack_pieces(&[2, 5, 0, 0, 0, 0, 0, 0]), 0x0502);
    assert_eq!(pack_pieces(&[1, 2, 3, 4, 5, 6, 7, 8]), 0x0807060504030201);
}

#[test]
fn pack_pieces_pads_short_input_with_zeros() {
    assert_eq!(pack_pieces(&[]), 0);
    assert_eq!(pack_pieces(&[0xff, 0x10]), 0x10ff);
}

#[test]
fn pack_pieces_ignores_bytes_past_the_eighth() {
    assert_eq!(pack_pieces(&[1, 2, 3, 4, 5, 6, 7, 8, 9, 10]), 0x0807060504030201);
}

#[test]
fn word_byte_orders() {
    let bytes = counting_nonce();
    assert_eq!(word_from_le_bytes(&bytes, 0), 0x0706050403020100);
    assert_eq!(word_from_le_bytes(&bytes, 24), 0x1f1e1d1c1b1a1918);
    assert_eq!(word_from_be_bytes(&bytes, 0), 0x0001020304050607);
    assert_eq!(word_from_be_bytes(&bytes, 8), 0x08090a0b0c0d0e0f);
}

#[test]
fn extract_byte_unpacks_packed_coordinates() {
    let packed = pack_pieces(&[9, 8, 7, 6, 5, 4, 3, 2]);
    let coords: Vec<u64> = (0..8).map(|j| extract_byte(packed, j)).collect();
    assert_eq!(coords, vec![9, 8, 7, 6, 5, 4, 3, 2]);
}

#[test]
fn push_le_bytes_round_trips_word() {
    let mut out = vec![0xaa];
    push_le_bytes(&mut out, 0x0102030405060708);
    assert_eq!(out, vec![0xaa, 8, 7, 6, 5, 4, 3, 2, 1]);
    assert_eq!(word_from_le_bytes(&out, 1), 0x0102030405060708);
}

#[test]
fn chessboard_check_accepts_distinct_pieces_in_range() {
    assert!(chessboard_check(&vec![2, 5, 0, 0, 0, 0, 0, 0], 2, 25));
    assert!(chessboard_check(&vec![0, 1, 2, 3, 4, 5, 6, 7], 8, 8));
}

#[test]
fn chessboard_check_rejects_piece_outside_board() {
    assert!(!chessboard_check(&vec![2, 25, 0, 0, 0, 0, 0, 0], 2, 25));
    assert!(!chessboard_check(&vec![0, 1, 2, 3, 4, 5, 6, 8], 8, 8));
}

#[test]
fn chessboard_check_rejects_two_pieces_on_one_cell() {
    assert!(!chessboard_check(&vec![3, 3, 0, 0, 0, 0, 0, 0], 2, 25));
    assert!(!chessboard_check(&vec![1, 2, 3, 1, 0, 0, 0, 0], 4, 25));
}

#[test]
fn chessboard_check_ignores_positions_past_the_count() {
    // positions 2.. are not pieces: equal or out-of-range values there are fine
    assert!(chessboard_check(&vec![2, 5, 0, 0, 200, 200, 0, 0], 2, 25));
}

#[test]
fn assert_sha256_accepts_the_digest_of_the_message() {
    let message = [
        0x0502,
        0x0706050403020100,
        0x0f0e0d0c0b0a0908,
        0x1716151413121110,
        0x1f1e1d1c1b1a1918,
    ];
    assert!(assert_sha256(&message, &EXPECTED_HASH));
}

#[test]
fn assert_sha256_checks_every_hash_word() {
    let message = [0u64; 5];
    assert!(assert_sha256(
        &message,
        &[0x2c34ce1df23b838c, 0x5abf2a7f6437cca3, 0xd3067ed509ff25f1, 0x1df6b11b582b51eb]
    ));
    let mut wrong = EXPECTED_HASH;
    wrong[3] ^= 1;
    assert!(!assert_sha256(&message, &wrong));
}

#[test]
fn chessboard_witness_hashes_pieces_and_nonce() {
    let w = chessboard_witness(2, 25, &[2, 5, 0, 0, 0, 0, 0, 0], &counting_nonce());
    assert_eq!(w.cont, 2);
    assert_eq!(w.size, 25);
    assert_eq!(w.piece, 0x0502);
    assert_eq!(
        w.nonce,
        [0x0706050403020100, 0x0f0e0d0c0b0a0908, 0x1716151413121110, 0x1f1e1d1c1b1a1918]
    );
    assert_eq!(w.out_hash, EXPECTED_HASH);
}

#[test]
fn prepared_board_is_accepted_exactly_when_rules_hold() {
    let n = counting_nonce();
    let ok = |cont: u64, size: u64, pieces: [u8; 8]| {
        init_chessboard_satisfied(&chessboard_witness(cont, size, &pieces, &n))
    };
    assert!(ok(2, 25, [2, 5, 0, 0, 0, 0, 0, 0]));
    assert!(ok(8, 256, [0, 1, 2, 3, 4, 5, 6, 255]));
    assert!(ok(1, 1, [0, 0, 0, 0, 0, 0, 0, 0]));
    // no pieces
    assert!(!ok(0, 25, [2, 5, 0, 0, 0, 0, 0, 0]));
    // more than eight pieces
    assert!(!ok(9, 25, [0, 1, 2, 3, 4, 5, 6, 7]));
    // board larger than 256 cells
    assert!(!ok(2, 257, [2, 5, 0, 0, 0, 0, 0, 0]));
    // more pieces than cells
    assert!(!ok(3, 2, [0, 1, 0, 0, 0, 0, 0, 0]));
    // a piece outside the board
    assert!(!ok(2, 25, [2, 30, 0, 0, 0, 0, 0, 0]));
    // two pieces on one cell
    assert!(!ok(3, 25, [2, 5, 2, 0, 0, 0, 0, 0]));
}

#[test]
fn board_with_wrong_hash_is_rejected() {
    let mut w = chessboard_witness(2, 25, &[2, 5, 0, 0, 0, 0, 0, 0], &counting_nonce());
    assert!(init_chessboard_satisfied(&w));
    w.out_hash[0] ^= 0x100;
    assert!(!init_chessboard_satisfied(&w));
    let w2 = ChessboardWitness { piece: 0x0503, ..chessboard_witness(2, 25, &[2, 5, 0, 0, 0, 0, 0, 0], &counting_nonce()) };
    assert!(!init_chessboard_satisfied(&w2));
}

#[test]
fn init_chessboard_witness_uses_the_nonce_it_returns() {
    let pieces = [2u8, 5, 0, 0, 0, 0, 0, 0];
    let (w, nonce) = init_chessboard_witness(2, 25, &pieces);
    assert_eq!(w, chessboard_witness(2, 25, &pieces, &nonce));
    assert!(init_chessboard_satisfied(&w));
}

#[test]
fn test_circuit_a_multiplies_without_overflow() {
    assert!(a(3, 4, 12));
    assert!(!a(3, 4, 13));
    assert!(a(0, u64::MAX, 0));
    assert!(a(1 << 32, (1 << 32) - 1, (1u64 << 32) * ((1 << 32) - 1)));
    assert!(!a(1 << 32, 1 << 32, 0));
}
