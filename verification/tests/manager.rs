use battleship_zkp::circuits::battleship::attack_satisfied;
use battleship_zkp::zk_manger::battleship::attack_result;
use battleship_zkp::zk_manger::battleship::attack_witness;
use battleship_zkp::zk_manger::battleship::chessboard_witness;
use battleship_zkp::zk_manger::battleship::AttackCircuitProof;
use battleship_zkp::zk_manger::battleship::AttackCircuitPublic;
use battleship_zkp::zk_manger::battleship::AttackPublicLayout;
use battleship_zkp::zk_manger::battleship::ChessboardPublicLayout;
use battleship_zkp::zk_manger::battleship::InitChessboardProof;
use battleship_zkp::zk_manger::battleship::InitChessboardPublic;
use battleship_zkp::zk_manger::battleship::OutsideError;

fn nonce() -> [u8; 32] {
    let mut n = [0u8; 32];
    for i in 0..32 {
        n[i] = (i as u8).wrapping_mul(7);
    }
    n
}

#[test]
fn outside_error_keeps_its_message() {
    let e = OutsideError::new("攻击超出界限");
    assert_eq!(e.details(), "攻击超出界限".to_string());
    assert_eq!(OutsideError::new("").details(), String::new());
}

#[test]
fn init_public_reads_words_at_layout_positions() {
    let proof = InitChessboardProof {
        public_words: vec![100, 2, 25, 11, 12, 13, 14, 0],
        proof: vec![1, 2, 3],
    };
    let layout = ChessboardPublicLayout { cont: 1, size: 2, out_hash: [3, 4, 5, 6] };
    let public = InitChessboardPublic::from_public_words(&proof, &layout).unwrap();
    assert_eq!(public, InitChessboardPublic { cont: 2, size: 25, out_hash: [11, 12, 13, 14] });
    let shuffled = ChessboardPublicLayout { cont: 6, size: 0, out_hash: [7, 7, 1, 2] };
    let public = InitChessboardPublic::from_public_words(&proof, &shuffled).unwrap();
    assert_eq!(public, InitChessboardPublic { cont: 14, size: 100, out_hash: [0, 0, 2, 25] });
}

#[test]
fn init_public_is_none_when_a_position_is_missing() {
    let proof = InitChessboardProof { public_words: vec![100, 2, 25, 11, 12, 13], proof: vec![] };
    let layout = ChessboardPublicLayout { cont: 1, size: 2, out_hash: [3, 4, 5, 6] };
    assert_eq!(InitChessboardPublic::from_public_words(&proof, &layout), None);
    let layout = ChessboardPublicLayout { cont: 6, size: 2, out_hash: [3, 4, 5, 0] };
    assert_eq!(InitChessboardPublic::from_public_words(&proof, &layout), None);
    let empty = InitChessboardProof { public_words: vec![], proof: vec![] };
    let layout = ChessboardPublicLayout { cont: 0, size: 0, out_hash: [0, 0, 0, 0] };
    assert_eq!(InitChessboardPublic::from_public_words(&empty, &layout), None);
}

#[test]
fn attack_public_reads_words_at_layout_positions() {
    let proof = AttackCircuitProof {
        public_words: vec![1, 2, 25, 11, 12, 13, 14, 5, 1],
        proof: vec![],
    };
    let layout = AttackPublicLayout {
        cont: 1,
        size: 2,
        out_hash: [3, 4, 5, 6],
        attack_piece: 7,
        out_attack_result: 8,
    };
    let public = AttackCircuitPublic::from_public_words(&proof, &layout).unwrap();
    assert_eq!(
        public,
        AttackCircuitPublic {
            cont: 2,
            size: 25,
            out_hash: [11, 12, 13, 14],
            attack_piece: 5,
            out_attack_result: 1,
        }
    );
    let short = AttackCircuitProof { public_words: vec![1, 2, 25, 11, 12, 13, 14, 5], proof: vec![] };
    assert_eq!(AttackCircuitPublic::from_public_words(&short, &layout), None);
}

#[test]
fn attack_on_a_piece_hits() {
    let pieces = [2u8, 5, 0, 0, 0, 0, 0, 0];
    let w = attack_witness(&2, &25, &pieces, &nonce(), &5).unwrap();
    assert_eq!(w.out_attack_result, 1);
    assert_eq!(attack_result(&pieces, 2), 1);
}

#[test]
fn attack_on_an_empty_cell_misses() {
    let pieces = [2u8, 5, 0, 0, 0, 0, 0, 0];
    let w = attack_witness(&2, &25, &pieces, &nonce(), &1).unwrap();
    assert_eq!(w.out_attack_result, 0);
    assert_eq!(attack_result(&pieces, 24), 0);
}

#[test]
fn attack_compares_all_eight_coordinates() {
    // the unused coordinates (zero here) are compared too
    let pieces = [2u8, 5, 0, 0, 0, 0, 0, 0];
    assert_eq!(attack_result(&pieces, 0), 1);
}

#[test]
fn attack_outside_the_board_is_refused() {
    let pieces = [2u8, 5, 0, 0, 0, 0, 0, 0];
    let e = attack_witness(&2, &25, &pieces, &nonce(), &25).unwrap_err();
    assert_eq!(e.details(), "攻击超出界限");
    assert!(attack_witness(&2, &25, &pieces, &nonce(), &u64::MAX).is_err());
    // a board of more than 256 cells still refuses cells from 256 on
    assert!(attack_witness(&2, &300, &pieces, &nonce(), &256).is_err());
    assert!(attack_witness(&2, &300, &pieces, &nonce(), &255).is_ok());
    assert!(attack_witness(&2, &25, &pieces, &nonce(), &24).is_ok());
}

#[test]
fn attack_carries_the_committed_board() {
    let pieces = [7u8, 3, 9, 0, 0, 0, 0, 0];
    let n = nonce();
    let board = chessboard_witness(3, 16, &pieces, &n);
    let attack = attack_witness(&3, &16, &pieces, &n, &9).unwrap();
    assert_eq!(attack.board, board);
    assert_eq!(attack.board.out_hash, board.out_hash);
    let other = chessboard_witness(3, 16, &[7, 3, 8, 0, 0, 0, 0, 0], &n);
    assert_ne!(other.out_hash, board.out_hash);
}

#[test]
fn attack_witness_carries_the_attacked_cell() {
    let pieces = [2u8, 5, 0, 0, 0, 0, 0, 0];
    let w = attack_witness(&2, &25, &pieces, &nonce(), &1).unwrap();
    assert_eq!(w.attack_piece, 1);
    assert_eq!(w.out_attack_result, 0);
    assert_eq!(w.board.cont, 2);
    assert_eq!(w.board.size, 25);
}

#[test]
fn prepared_attack_is_accepted_exactly_when_board_rules_hold() {
    let n = nonce();
    let ok = |cont: u64, size: u64, pieces: [u8; 8], cell: u64| {
        attack_satisfied(&attack_witness(&cont, &size, &pieces, &n, &cell).unwrap())
    };
    assert!(ok(2, 25, [2, 5, 0, 0, 0, 0, 0, 0], 1));
    assert!(ok(2, 25, [2, 5, 0, 0, 0, 0, 0, 0], 5));
    assert!(ok(8, 256, [0, 1, 2, 3, 4, 5, 6, 255], 255));
    // the board breaks the rules: two pieces on one cell
    assert!(!ok(3, 25, [2, 5, 2, 0, 0, 0, 0, 0], 2));
    // no pieces
    assert!(!ok(0, 25, [2, 5, 0, 0, 0, 0, 0, 0], 1));
}

#[test]
fn attack_with_a_false_outcome_or_cell_is_rejected() {
    let pieces = [2u8, 5, 0, 0, 0, 0, 0, 0];
    let w = attack_witness(&2, &25, &pieces, &nonce(), &5).unwrap();
    assert!(attack_satisfied(&w));
    let mut lie = w;
    lie.out_attack_result = 0;
    assert!(!attack_satisfied(&lie));
    let mut off_board = w;
    off_board.attack_piece = 25;
    assert!(!attack_satisfied(&off_board));
}

#[test]
fn public_words_read_back_the_attack() {
    let pieces = [2u8, 5, 0, 0, 0, 0, 0, 0];
    let w = attack_witness(&2, &25, &pieces, &nonce(), &1).unwrap();
    let mut words = vec![0u64; 9];
    let layout = AttackPublicLayout {
        cont: 0,
        size: 1,
        out_hash: [2, 3, 4, 5],
        attack_piece: 6,
        out_attack_result: 7,
    };
    words[0] = w.board.cont;
    words[1] = w.board.size;
    for i in 0..4 {
        words[2 + i] = w.board.out_hash[i];
    }
    words[6] = w.attack_piece;
    words[7] = w.out_attack_result;
    let proof = AttackCircuitProof { public_words: words, proof: vec![] };
    let public = AttackCircuitPublic::from_public_words(&proof, &layout).unwrap();
    assert_eq!(public.cont, 2);
    assert_eq!(public.size, 25);
    assert_eq!(public.out_hash, w.board.out_hash);
    assert_eq!(public.attack_piece, 1);
    assert_eq!(public.out_attack_result, 0);
}
