use chesscore::board::fen::FenError;
use chesscore::board::movegen::MoveList;
use chesscore::board::Board;
use chesscore::types::{
    Move, MoveKind, BB, BK, BLACK, BN, BP, BQ, BR, EMPTY, NO_SQ, WB, WHITE, WK, WN, WP, WQ, WR,
};

const START: &str = "rnbqkbnr/pppppppp/8/8/8/8/PPPPPPPP/RNBQKBNR w KQkq - 0 1";
const KIWIPETE: &str = "r3k2r/p1ppqpb1/bn2pnp1/3PN3/1p2P3/2N2Q1p/PPPBBPPP/R3K2R w KQkq - 0 1";

fn sq(file: u8, rank: u8) -> u8 {
    21 + file + 10 * rank
}

fn board_from(fen: &str) -> Board {
    let mut b = Board::new();
    b.set_from_fen(fen).unwrap();
    b
}

fn moves_of(b: &Board) -> Vec<Move> {
    let mut list = MoveList::new();
    b.generate_all_moves(&mut list);
    list.moves()
}

#[test]
fn read_fen_validity() {
    let mut b = Board::new();
    b.set_from_fen("rnbqkbnr/pppppppp/8/8/8/8/PPPPPPPP/RNBQKBNR w KQkq - 0 1").unwrap();
    assert!(b.check_validity());
}

#[test]
fn start_position_has_twenty_moves() {
    let b = board_from(START);
    let moves = moves_of(&b);
    assert_eq!(moves.len(), 20);
    let pawn_moves = moves.iter().filter(|m| b.piece_at(m.from) == WP).count();
    let knight_moves = moves.iter().filter(|m| b.piece_at(m.from) == WN).count();
    assert_eq!(pawn_moves, 16);
    assert_eq!(knight_moves, 4);
    let double_pushes = moves.iter().filter(|m| m.is_pawn_start()).count();
    assert_eq!(double_pushes, 8);
}

#[test]
fn kiwipete_has_both_white_castles() {
    let b = board_from(KIWIPETE);
    let moves = moves_of(&b);
    let e1 = sq(4, 0);
    let king_side = Move::new(e1, sq(6, 0), EMPTY, EMPTY, MoveKind::Castle);
    let queen_side = Move::new(e1, sq(2, 0), EMPTY, EMPTY, MoveKind::Castle);
    assert!(moves.contains(&king_side));
    assert!(moves.contains(&queen_side));
    assert_eq!(moves.len(), 48);
}

#[test]
fn black_castles_when_clear() {
    let b = board_from("r3k2r/8/8/8/8/8/8/4K3 b kq - 0 1");
    let moves = moves_of(&b);
    let e8 = sq(4, 7);
    assert!(moves.contains(&Move::new(e8, sq(6, 7), EMPTY, EMPTY, MoveKind::Castle)));
    assert!(moves.contains(&Move::new(e8, sq(2, 7), EMPTY, EMPTY, MoveKind::Castle)));
}

#[test]
fn no_castle_through_attack() {
    // the black rook on f8 attacks f1, the square the king crosses
    let b = board_from("4kr2/8/8/8/8/8/8/4K2R w K - 0 1");
    let moves = moves_of(&b);
    assert!(!moves.iter().any(|m| m.is_castle()));
}

#[test]
fn promotion_push_makes_four_moves() {
    let b = board_from("4k3/7P/8/8/8/8/8/4K3 w - - 0 1");
    let moves = moves_of(&b);
    let h7 = sq(7, 6);
    let pushes: Vec<&Move> = moves.iter().filter(|m| m.from == h7).collect();
    assert_eq!(pushes.len(), 4);
    let promos: Vec<u8> = pushes.iter().map(|m| m.promotion).collect();
    assert_eq!(promos, vec![WQ, WN, WR, WB]);
    assert!(pushes.iter().all(|m| m.to == sq(7, 7) && m.capture == EMPTY));
}

#[test]
fn promotion_capture_makes_four_moves() {
    let b = board_from("4k1n1/7P/8/8/8/8/8/4K3 w - - 0 1");
    let moves = moves_of(&b);
    let h7 = sq(7, 6);
    let caps: Vec<&Move> = moves.iter().filter(|m| m.from == h7 && m.capture == BN).collect();
    assert_eq!(caps.len(), 4);
    assert!(caps.iter().all(|m| m.to == sq(6, 7)));
    let pushes = moves.iter().filter(|m| m.from == h7 && m.capture == EMPTY).count();
    assert_eq!(pushes, 4);
}

#[test]
fn black_promotion_push() {
    let b = board_from("4k3/8/8/8/8/8/7p/4K3 b - - 0 1");
    let moves = moves_of(&b);
    let h2 = sq(7, 1);
    let promos: Vec<u8> = moves.iter().filter(|m| m.from == h2).map(|m| m.promotion).collect();
    assert_eq!(promos, vec![BQ, BN, BR, BB]);
}

#[test]
fn en_passant_capture_is_generated() {
    let b = board_from("4k3/8/8/3pP3/8/8/8/4K3 w - d6 0 1");
    let moves = moves_of(&b);
    let e5 = sq(4, 4);
    let d6 = sq(3, 5);
    assert!(moves.contains(&Move::new(e5, d6, EMPTY, EMPTY, MoveKind::EnPassant)));
}

#[test]
fn no_en_passant_without_target() {
    // a white pawn on h7 must not capture onto the "no square" cell
    let b = board_from("4k3/7P/8/8/8/8/8/4K3 w - - 0 1");
    let moves = moves_of(&b);
    assert!(!moves.iter().any(|m| m.is_ep()));
    assert!(moves.iter().all(|m| m.to != NO_SQ));
}

#[test]
fn black_pawns_push_down_the_board() {
    let b = board_from("4k3/4p3/8/8/8/8/8/4K3 b - - 0 1");
    let moves = moves_of(&b);
    let e7 = sq(4, 6);
    let targets: Vec<u8> = moves.iter().filter(|m| m.from == e7).map(|m| m.to).collect();
    assert_eq!(targets, vec![sq(4, 5), sq(4, 4)]);
}

fn attack_matches_captures(fen: &str) {
    let b = board_from(fen);
    let side = b.side_to_move();
    let moves = moves_of(&b);
    for rank in 0..8u8 {
        for file in 0..8u8 {
            let s = sq(file, rank);
            let p = b.piece_at(s);
            if p == EMPTY {
                continue;
            }
            let opposing = if side == WHITE { p >= BP } else { p <= WK };
            if !opposing {
                continue;
            }
            let captured = moves.iter().any(|m| m.to == s && m.capture != EMPTY);
            assert_eq!(b.sq_attacked(s as usize, side), captured, "square {}", s);
        }
    }
}

#[test]
fn attack_agrees_with_captures() {
    attack_matches_captures(KIWIPETE);
    attack_matches_captures("r3k2r/p1ppqpb1/bn2pnp1/3PN3/1p2P3/2N2Q1p/PPPBBPPP/R3K2R b KQkq - 0 1");
    attack_matches_captures("8/2p5/3p4/KP5r/1R3p1k/8/4P1P1/8 w - - 0 1");
    attack_matches_captures("8/2p5/3p4/KP5r/1R3p1k/8/4P1P1/8 b - - 0 1");
    attack_matches_captures(START);
}

#[test]
fn attack_query_basics() {
    let b = board_from(START);
    // f3 is covered by the g1 knight and the e2 / g2 pawns
    assert!(b.sq_attacked(sq(5, 2) as usize, WHITE));
    assert!(!b.sq_attacked(sq(4, 3) as usize, WHITE));
    assert!(b.sq_attacked(sq(4, 5) as usize, BLACK));
    assert!(!b.sq_attacked(sq(4, 4) as usize, BLACK));
}

#[test]
fn make_take_round_trip_restores_everything() {
    for fen in [START, KIWIPETE, "4k3/8/8/3pP3/8/8/8/4K3 w - d6 0 1", "4k1n1/7P/8/8/8/8/8/4K3 w - - 7 1"] {
        let mut b = board_from(fen);
        let key = b.hash_key();
        let tally = b.tally();
        let grid: Vec<u8> = (0..120u8).map(|s| b.piece_at(s)).collect();
        let lists: Vec<Vec<u8>> = (0..13u8).map(|p| b.piece_list(p)).collect();
        let moves = moves_of(&b);
        for m in moves {
            assert!(b.move_is_applicable(m));
            b.make_move(m);
            assert!(b.check_validity());
            assert_eq!(b.generate_pos_key(), b.hash_key());
            b.take_move();
            assert!(b.check_validity());
            assert_eq!(b.hash_key(), key);
            assert_eq!(b.tally(), tally);
            let g2: Vec<u8> = (0..120u8).map(|s| b.piece_at(s)).collect();
            assert_eq!(g2, grid);
            let l2: Vec<Vec<u8>> = (0..13u8).map(|p| b.piece_list(p)).collect();
            assert_eq!(l2, lists);
        }
    }
}

#[test]
fn make_move_updates_state() {
    let mut b = board_from(START);
    let e2 = sq(4, 1);
    let e4 = sq(4, 3);
    b.make_move(Move::new(e2, e4, EMPTY, EMPTY, MoveKind::PawnStart));
    assert_eq!(b.side_to_move(), BLACK);
    assert_eq!(b.ep_square(), sq(4, 2));
    assert_eq!(b.piece_at(e4), WP);
    assert_eq!(b.piece_at(e2), EMPTY);
    assert_eq!(b.fifty_move_counter(), 0);
    assert!(b.check_validity());
    // a knight move raises the clock
    b.make_move(Move::new(sq(6, 7), sq(5, 5), EMPTY, EMPTY, MoveKind::Normal));
    assert_eq!(b.fifty_move_counter(), 1);
    assert_eq!(b.ep_square(), NO_SQ);
}

#[test]
fn castling_moves_the_rook_and_clears_rights() {
    let mut b = board_from(KIWIPETE);
    let e1 = sq(4, 0);
    b.make_move(Move::new(e1, sq(6, 0), EMPTY, EMPTY, MoveKind::Castle));
    assert_eq!(b.piece_at(sq(6, 0)), WK);
    assert_eq!(b.piece_at(sq(5, 0)), WR);
    assert_eq!(b.piece_at(sq(7, 0)), EMPTY);
    assert_eq!(b.castling_rights(), 12);
    assert!(b.check_validity());
    b.take_move();
    assert_eq!(b.castling_rights(), 15);
    assert_eq!(b.piece_at(sq(7, 0)), WR);
}

#[test]
fn fifty_move_draw_is_signalled() {
    let mut b = board_from("4k3/8/8/8/8/8/8/4K2R w - - 98 80");
    assert!(b.check_validity());
    let rook_move = Move::new(sq(7, 0), sq(7, 1), EMPTY, EMPTY, MoveKind::Normal);
    assert!(!b.reaches_fifty_move_limit(rook_move));
    b.make_move(rook_move);
    assert_eq!(b.fifty_move_counter(), 99);
    assert!(b.check_validity());
    // the next quiet move would bring the clock to 100: a draw
    let king_move = Move::new(sq(4, 7), sq(3, 7), EMPTY, EMPTY, MoveKind::Normal);
    assert!(b.reaches_fifty_move_limit(king_move));
    b.take_move();
    assert_eq!(b.fifty_move_counter(), 98);
    // a description may carry a clock of 100: it parses, is a draw, and is not valid
    let c = board_from("4k3/8/8/8/8/8/8/4K2R w - - 100 80");
    assert!(c.is_fifty_move_draw());
    assert!(!c.check_validity());
    assert!(!b.is_fifty_move_draw());
}

#[test]
fn board_without_a_king_is_invalid() {
    let b = board_from("8/8/8/8/8/8/8/4K3 w - - 0 1");
    assert!(!b.check_validity());
    let b = board_from("8/8/8/8/8/8/8/8 w - - 0 1");
    assert!(!b.check_validity());
    assert_eq!(b.generate_pos_key(), b.hash_key());
    assert!(board_from("4k3/8/8/8/8/8/8/4K3 w - - 0 1").check_validity());
}

#[test]
fn en_passant_target_on_wrong_rank_parses_but_is_invalid() {
    let b = board_from("4k3/8/8/8/8/8/8/4K3 w - e3 0 1");
    assert_eq!(b.ep_square(), sq(4, 2));
    assert!(!b.check_validity());
}

#[test]
fn castling_follows_the_right_without_a_rook() {
    // the right is held, f1 and g1 are empty and unattacked: the castle is generated
    let mut b = board_from("4k3/8/8/8/8/8/8/4K3 w K - 0 1");
    let castle = Move::new(sq(4, 0), sq(6, 0), EMPTY, EMPTY, MoveKind::Castle);
    assert!(moves_of(&b).contains(&castle));
    let key = b.hash_key();
    assert!(b.move_is_applicable(castle));
    b.make_move(castle);
    assert_eq!(b.piece_at(sq(6, 0)), WK);
    assert_eq!(b.piece_at(sq(5, 0)), EMPTY);
    assert!(b.check_validity());
    b.take_move();
    assert_eq!(b.piece_at(sq(4, 0)), WK);
    assert_eq!(b.hash_key(), key);
    assert!(b.check_validity());
}

#[test]
fn no_en_passant_onto_occupied_target() {
    let b = board_from("4k3/8/3n4/3pP3/8/8/8/4K3 w - d6 0 1");
    assert!(!moves_of(&b).iter().any(|m| m.is_ep()));
}

#[test]
fn fresh_board_key_is_derivable() {
    let b = Board::new();
    let k = b.generate_pos_key();
    assert_eq!(k, Board::new().generate_pos_key());
    assert_ne!(k, board_from(START).generate_pos_key());
}

#[test]
fn fen_fields_are_read() {
    let b = board_from("4k3/8/8/3pP3/8/8/8/4K3 w Kq d6 12 30");
    assert_eq!(b.side_to_move(), WHITE);
    assert_eq!(b.castling_rights(), 1 | 8);
    assert_eq!(b.ep_square(), sq(3, 5));
    assert_eq!(b.fifty_move_counter(), 12);
    assert_eq!(b.ply(), 60);
    let b = board_from("4k3/8/8/8/8/8/8/4K3 b - - 0 30");
    assert_eq!(b.ply(), 61);
}

#[test]
fn fen_tally_and_lists() {
    let b = board_from(START);
    let t = b.tally();
    assert_eq!(t.big_w, 8);
    assert_eq!(t.big_b, 8);
    assert_eq!(t.major_w, 3);
    assert_eq!(t.minor_b, 4);
    assert_eq!(t.material_w, 8 * 1000 + 2 * 3250 + 2 * 3330 + 2 * 5500 + 10000 + 500000);
    assert_eq!(t.pawns_w, 0xff00);
    assert_eq!(t.pawns_b, 0x00ff_0000_0000_0000);
    assert_eq!(t.pawns_all, 0x00ff_0000_0000_ff00);
    assert_eq!(t.king_w, sq(4, 0));
    assert_eq!(t.king_b, sq(4, 7));
    assert_eq!(b.piece_list(WN), vec![sq(1, 0), sq(6, 0)]);
    assert_eq!(b.piece_list(BK), vec![sq(4, 7)]);
    assert!(b.piece_list(EMPTY).is_empty());
}

#[test]
fn key_depends_on_side_and_rights() {
    let a = board_from(START);
    let b = board_from("rnbqkbnr/pppppppp/8/8/8/8/PPPPPPPP/RNBQKBNR b KQkq - 0 1");
    let c = board_from("rnbqkbnr/pppppppp/8/8/8/8/PPPPPPPP/RNBQKBNR w Kkq - 0 1");
    assert_ne!(a.hash_key(), b.hash_key());
    assert_ne!(a.hash_key(), c.hash_key());
    assert_eq!(a.hash_key(), a.generate_pos_key());
    assert_eq!(a.hash_key(), board_from(START).hash_key());
}

#[test]
fn fen_errors() {
    let cases: [(&str, FenError); 12] = [
        ("rnbqkbnr/pppppppp/8/8/8/8/PPPPPPPP/RNBQKBNR", FenError::MissingSeparator),
        ("rnbqkbnr/ppppxppp/8/8/8/8/PPPPPPPP/RNBQKBNR w KQkq - 0 1", FenError::BadPlacement),
        ("rnbqkbnrr/pppppppp/8/8/8/8/PPPPPPPP/RNBQKBNR w KQkq - 0 1", FenError::BadPlacement),
        ("8/8/8/8/8/8/8/8/8 w - - 0 1", FenError::BadPlacement),
        ("4k3/8/8/8/8/8/8/4K3 x - - 0 1", FenError::BadSide),
        ("4k3/8/8/8/8/8/8/4K3 w", FenError::MissingField),
        ("4k3/8/8/8/8/8/8/4K3 w KX - 0 1", FenError::BadCastling),
        ("4k3/8/8/8/8/8/8/4K3 w - e9 0 1", FenError::BadEnPassant),
        ("4k3/8/8/8/8/8/8/4K3 w - i3 0 1", FenError::BadEnPassant),
        ("4k3/8/8/8/8/8/8/4K3 w - - 256 1", FenError::BadHalfmove),
        ("4k3/8/8/8/8/8/8/4K3 w - - x 1", FenError::BadHalfmove),
        ("4k3/8/8/8/8/8/8/4K3 w - - 0 4294967296", FenError::BadFullmove),
    ];
    for (fen, err) in cases {
        let mut b = Board::new();
        assert_eq!(b.set_from_fen(fen), Err(err), "{}", fen);
    }
    let mut b = Board::new();
    assert_eq!(b.set_from_fen("4k3/8/8/8/8/8/8/4K3 w - -"), Err(FenError::MissingField));
    assert_eq!(b.set_from_fen("4k3/8/8/8/8/8/8/4K3 w - - 3"), Err(FenError::MissingField));
    assert_eq!(b.set_from_fen("4k3/8/8/8/8/8/8/4K3 w  - 0 1"), Err(FenError::BadCastling));
}

#[test]
fn failed_fen_leaves_board_unchanged() {
    let mut b = board_from(START);
    let key = b.hash_key();
    assert!(b.set_from_fen("4k3/8/8/8/8/8/8/4K3 w - - 0").is_err());
    assert_eq!(b.hash_key(), key);
    assert!(b.check_validity());
}

#[test]
fn new_board_is_empty() {
    let b = Board::new();
    assert_eq!(b.side_to_move(), 2);
    assert_eq!(b.hash_key(), 0);
    assert!(!b.check_validity());
    let mut b = board_from(START);
    b.reset();
    assert_eq!(b.piece_at(sq(4, 0)), EMPTY);
    assert_eq!(b.piece_at(0), 100);
}

#[test]
fn history_heuristics() {
    let mut b = board_from(START);
    let m = Move::new(sq(6, 0), sq(5, 2), EMPTY, EMPTY, MoveKind::Normal);
    assert_eq!(b.history_score(m), 0);
    b.add_history(m, 30);
    b.add_history(m, 12);
    assert_eq!(b.history_score(m), 42);
    b.add_history(m, i32::MAX);
    assert_eq!(b.history_score(m), i32::MAX);
}

#[test]
fn countermove_needs_a_previous_move() {
    let mut b = board_from(START);
    let reply = Move::new(sq(6, 7), sq(5, 5), EMPTY, EMPTY, MoveKind::Normal);
    b.insert_countermove(reply);
    assert!(!b.is_countermove(reply));
    b.make_move(Move::new(sq(4, 1), sq(4, 3), EMPTY, EMPTY, MoveKind::PawnStart));
    assert!(!b.is_countermove(reply));
    b.insert_countermove(reply);
    assert!(b.is_countermove(reply));
    assert!(!b.is_countermove(Move::null()));
}

#[test]
fn followup_history_two_plies_back() {
    let mut b = board_from("4k3/8/3p4/8/8/5N2/8/4K3 w - - 0 1");
    let later = Move::new(sq(4, 0), sq(3, 0), EMPTY, EMPTY, MoveKind::Normal);
    // fewer than two moves made: no key, score zero
    b.add_followup_history(later, 50);
    assert_eq!(b.followup_history_score(later), 0);
    let f3 = sq(5, 2);
    let e5 = sq(4, 4);
    b.make_move(Move::new(f3, e5, EMPTY, EMPTY, MoveKind::Normal));
    assert_eq!(b.followup_history_score(later), 0);
    // the black pawn captures the knight on e5
    b.make_move(Move::new(sq(3, 5), e5, WN, EMPTY, MoveKind::Normal));
    assert_eq!(b.followup_history_score(later), 0);
    b.add_followup_history(later, 50);
    assert_eq!(b.followup_history_score(later), 50);
}

#[test]
fn killers_shift() {
    let mut b = board_from(START);
    let a = Move::new(sq(6, 0), sq(5, 2), EMPTY, EMPTY, MoveKind::Normal);
    let c = Move::new(sq(1, 0), sq(2, 2), EMPTY, EMPTY, MoveKind::Normal);
    b.insert_killer(a);
    b.insert_killer(c);
    assert!(!b.is_third_order_killer(c));
    b.make_move(Move::new(sq(4, 1), sq(4, 3), EMPTY, EMPTY, MoveKind::PawnStart));
    b.make_move(Move::new(sq(4, 6), sq(4, 4), EMPTY, EMPTY, MoveKind::PawnStart));
    b.make_move(Move::new(sq(3, 1), sq(3, 3), EMPTY, EMPTY, MoveKind::PawnStart));
    assert!(b.is_third_order_killer(Move::null()));
    b.take_move();
    b.take_move();
    b.take_move();
    assert!(!b.is_third_order_killer(c));
}

#[test]
fn two_ply_walk_keeps_invariants() {
    let mut b = board_from(KIWIPETE);
    let key = b.hash_key();
    for m1 in moves_of(&b) {
        b.make_move(m1);
        for m2 in moves_of(&b) {
            if !b.move_is_applicable(m2) {
                continue;
            }
            b.make_move(m2);
            // a pseudo-legal move may take a king left in check; that position is not valid
            assert_eq!(b.check_validity(), m2.capture != WK && m2.capture != BK);
            b.take_move();
        }
        b.take_move();
        assert!(b.check_validity());
    }
    assert_eq!(b.hash_key(), key);
}

#[test]
fn move_applicability() {
    let b = board_from(START);
    // a piece of the side not to move
    assert!(!b.move_is_applicable(Move::new(sq(4, 6), sq(4, 4), EMPTY, EMPTY, MoveKind::PawnStart)));
    // an empty origin
    assert!(!b.move_is_applicable(Move::new(sq(4, 3), sq(4, 4), EMPTY, EMPTY, MoveKind::Normal)));
    // a double push that does not go two ranks
    assert!(!b.move_is_applicable(Move::new(sq(4, 1), sq(4, 2), EMPTY, EMPTY, MoveKind::PawnStart)));
    // castling with pieces in the way of the rook check still needs the rook and empty squares
    assert!(!b.move_is_applicable(Move::new(sq(4, 0), sq(6, 0), EMPTY, EMPTY, MoveKind::Castle)));
    assert!(b.move_is_applicable(Move::new(sq(6, 0), sq(5, 2), EMPTY, EMPTY, MoveKind::Normal)));
    assert!(!b.move_is_applicable(Move::null()));
}
