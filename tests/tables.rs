use chesscore::historytable::{
    coloured_piece_index, piece_index, pslots, uncoloured_piece_index, DoubleHistoryTable,
    HistoryTable, MoveTable,
};
use chesscore::transpositiontable::{HFlag, ProbeResult, TranspositionTable, IS_MATE_SCORE, MATE_SCORE};
use chesscore::types::{Move, MoveKind, BK, BP, EMPTY, WK, WN, WP};

fn some_move(from: u8, to: u8) -> Move {
    Move::new(from, to, EMPTY, EMPTY, MoveKind::Normal)
}

#[test]
fn piece_slots() {
    assert_eq!(pslots(), 12);
    assert_eq!(piece_index(WP), 0);
    assert_eq!(piece_index(BK), 11);
    assert_eq!(coloured_piece_index(BP), 6);
    assert_eq!(uncoloured_piece_index(BP), 0);
    assert_eq!(uncoloured_piece_index(WK), 5);
}

#[test]
fn history_table_accumulates() {
    let mut t = HistoryTable::new();
    t.clear();
    assert_eq!(t.get(WN, 45), 0);
    t.add(WN, 45, 7);
    t.add(WN, 45, -2);
    assert_eq!(t.get(WN, 45), 5);
    assert_eq!(t.get(WN, 46), 0);
    t.add(WN, 45, i32::MIN);
    assert_eq!(t.get(WN, 45), i32::MIN + 5);
    t.add(WN, 45, -10);
    assert_eq!(t.get(WN, 45), i32::MIN);
    t.clear();
    assert_eq!(t.get(WN, 45), 0);
}

#[test]
fn double_history_keys_are_distinct() {
    let mut t = DoubleHistoryTable::new();
    t.clear();
    t.add(WN, 45, BP, 30, 9);
    assert_eq!(t.get(WN, 45, BP, 30), 9);
    // keys that a row-major layout must keep apart
    assert_eq!(t.get(WN, 45, BP + 1, 30), 0);
    assert_eq!(t.get(WN, 46, BP, 30), 0);
    assert_eq!(t.get(BP, 30, WN, 45), 0);
    t.add(BK, 119, BK, 119, 3);
    assert_eq!(t.get(BK, 119, BK, 119), 3);
}

#[test]
fn move_table_records() {
    let mut t = MoveTable::new();
    t.clear();
    assert_eq!(t.get(WP, 35), Move::null());
    let m = some_move(35, 55);
    t.add(WP, 35, m);
    assert_eq!(t.get(WP, 35), m);
    t.clear();
    assert!(t.get(WP, 35).is_null());
}

#[test]
fn tt_store_then_probe_exact() {
    let mut tt = TranspositionTable::<1009>::new();
    tt.clear();
    let m = some_move(35, 55);
    tt.store(123_456, 3, m, 250, HFlag::Exact, 6);
    assert_eq!(tt.probe(123_456, 3, -1000, 1000, 6), ProbeResult::Cutoff(250));
    assert_eq!(tt.probe(123_456, 3, -1000, 1000, 4), ProbeResult::Cutoff(250));
    // deeper than stored: only the move is usable
    assert_eq!(tt.probe(123_456, 3, -1000, 1000, 7), ProbeResult::BestMove(m));
}

#[test]
fn tt_bounds() {
    let mut tt = TranspositionTable::<1009>::new();
    tt.clear();
    let m = some_move(35, 55);
    tt.store(1, 0, m, 100, HFlag::Beta, 5);
    assert_eq!(tt.probe(1, 0, 0, 90, 5), ProbeResult::Cutoff(90));
    assert_eq!(tt.probe(1, 0, 0, 150, 5), ProbeResult::BestMove(m));
    tt.store(2, 0, m, 100, HFlag::Alpha, 5);
    assert_eq!(tt.probe(2, 0, 120, 200, 5), ProbeResult::Cutoff(120));
    assert_eq!(tt.probe(2, 0, 50, 200, 5), ProbeResult::BestMove(m));
}

#[test]
fn tt_mate_scores_are_rebased() {
    let mut tt = TranspositionTable::<1009>::new();
    tt.clear();
    let m = some_move(35, 55);
    let mate = MATE_SCORE - 10;
    assert!(mate > IS_MATE_SCORE);
    tt.store(77, 4, m, mate, HFlag::Exact, 2);
    assert_eq!(tt.probe(77, 4, -10, 10, 1), ProbeResult::Cutoff(mate));
    assert_eq!(tt.probe(77, 6, -10, 10, 1), ProbeResult::Cutoff(mate - 2));
    tt.store(78, 4, m, -mate, HFlag::Exact, 2);
    assert_eq!(tt.probe(78, 4, -10, 10, 1), ProbeResult::Cutoff(-mate));
    assert_eq!(tt.probe(78, 1, -10, 10, 1), ProbeResult::Cutoff(-mate - 3));
}

#[test]
fn tt_same_bucket_other_key_misses() {
    let mut tt = TranspositionTable::<7>::new();
    tt.clear();
    let m = some_move(35, 55);
    tt.store(3, 0, m, 10, HFlag::Exact, 4);
    assert_eq!(tt.probe(10, 0, -100, 100, 0), ProbeResult::Nothing);
    assert_eq!(tt.probe(0, 0, -100, 100, 0), ProbeResult::Nothing);
    assert_eq!(tt.probe(3, 0, -100, 100, 0), ProbeResult::Cutoff(10));
}

#[test]
fn tt_shallow_entry_keeps_deep_one() {
    let mut tt = TranspositionTable::<7>::new();
    tt.clear();
    let deep = some_move(35, 55);
    let shallow = some_move(36, 56);
    tt.store(3, 0, deep, 10, HFlag::Exact, 8);
    tt.store(10, 0, shallow, 20, HFlag::Exact, 2);
    assert_eq!(tt.probe(3, 0, -100, 100, 8), ProbeResult::Cutoff(10));
    assert_eq!(tt.probe(10, 0, -100, 100, 2), ProbeResult::Cutoff(20));
    tt.store(17, 0, shallow, 30, HFlag::Exact, 1);
    assert_eq!(tt.probe(3, 0, -100, 100, 8), ProbeResult::Cutoff(10));
    assert_eq!(tt.probe(10, 0, -100, 100, 2), ProbeResult::Nothing);
    assert_eq!(tt.probe(17, 0, -100, 100, 1), ProbeResult::Cutoff(30));
}

#[test]
fn tt_clear_for_search_keeps_entries() {
    let mut tt = TranspositionTable::<7>::new();
    tt.clear_for_search();
    let m = some_move(35, 55);
    tt.store(3, 0, m, 10, HFlag::Exact, 4);
    tt.clear_for_search();
    assert_eq!(tt.probe(3, 0, -100, 100, 4), ProbeResult::Cutoff(10));
    tt.clear();
    assert_eq!(tt.probe(3, 0, -100, 100, 4), ProbeResult::Nothing);
}
