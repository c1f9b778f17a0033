use chesscore::board::movegen::MoveList;
use chesscore::board::Board;
use chesscore::evaluation::{EvalVector, MoveCounter};
use chesscore::types::{BP, WB, WK, WN, WP};

#[test]
fn eval_vector_csv() {
    let mut v = EvalVector::new();
    assert!(v.valid);
    assert_eq!(v.csvify(), "0,0,0,0,0,0,0,0,0,0,0,0,0,0,0,0,0,0,0,0,0,0,0,0,0");
    v.pawns = -3;
    v.passed_pawns_by_rank[7] = 12;
    v.turn = 1;
    let csv = v.csvify();
    assert_eq!(csv, "-3,0,0,0,0,0,0,0,0,0,0,0,0,12,0,0,0,0,0,0,0,0,0,0,1");
    let header = EvalVector::header();
    assert_eq!(header.matches(',').count(), csv.matches(',').count());
    assert!(header.starts_with("p,n,b,r,q,bpair"));
}

#[test]
fn move_counter_counts_by_kind() {
    let mut b = Board::new();
    b.set_from_fen("rnbqkbnr/pppppppp/8/8/8/8/PPPPPPPP/RNBQKBNR w KQkq - 0 1").unwrap();
    let mut list = MoveList::new();
    b.generate_all_moves(&mut list);
    let mut counter = MoveCounter::new(&b);
    for m in list.moves() {
        counter.push(m, 0);
    }
    assert_eq!(counter.get_mobility_of(WP), 16);
    assert_eq!(counter.get_mobility_of(BP), 16);
    assert_eq!(counter.get_mobility_of(WN), 4);
    assert_eq!(counter.get_mobility_of(WB), 0);
    assert_eq!(counter.get_mobility_of(WK), 0);
    assert_eq!(counter.score(), 16 * 10 + 4 * 15);
}
