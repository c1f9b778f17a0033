//! The move-ordering heuristics as the search reads and feeds them: plain
//! history, countermoves, follow-up history and killers.
use vstd::prelude::*;
use crate::types::{Move, MoveKind, is_piece, EMPTY};
use crate::board::{Board, Undo, MAX_DEPTH_PLY};
use crate::historytable::{single_index, double_index, saturate};
use crate::board::makemove::lemma_history_kept;

verus! {

/// The (piece, square) key of the move before the current position: the
/// piece now on its destination. None at the root, after a null move, or
/// when the destination holds no piece.
pub open spec fn counter_key(h: Seq<Undo>, g: Seq<u8>) -> Option<(u8, u8)> {
    if h.len() == 0 {
        None
    } else {
        let prev = h.last().m;
        if prev == Move::spec_null() || prev.to >= 120 || !is_piece(g[prev.to as int]) {
            None
        } else {
            Some((g[prev.to as int], prev.to))
        }
    }
}

/// The piece that stood on the destination of the move two plies back: the
/// piece the following move captured there, or else the piece there now.
pub open spec fn followup_piece(tpa: Move, prev: Move, g: Seq<u8>) -> u8 {
    if prev.capture != EMPTY && prev.to == tpa.to {
        prev.capture
    } else {
        g[tpa.to as int]
    }
}

/// The key under which follow-up history rates move `m`: the piece and
/// destination of the move two plies back, then the piece and destination
/// of `m`. None when fewer than two moves were made, when either of them is
/// null, when the last one was an en-passant capture, or when a key part is
/// not a piece.
pub open spec fn followup_key(h: Seq<Undo>, g: Seq<u8>, m: Move) -> Option<(u8, u8, u8, u8)> {
    if h.len() < 2 {
        None
    } else {
        let tpa = h[h.len() - 2].m;
        let prev = h[h.len() - 1].m;
        if tpa == Move::spec_null() || prev == Move::spec_null() || prev.kind
            == MoveKind::EnPassant || tpa.to >= 120 {
            None
        } else {
            let p1 = followup_piece(tpa, prev, g);
            let p2 = g[m.from as int];
            if !is_piece(p1) || !is_piece(p2) {
                None
            } else {
                Some((p1, tpa.to, p2, m.to))
            }
        }
    }
}

/// Two plies after a capture on the follow-up square (the last move not
/// being en passant), follow-up history keys on the captured piece, not on
/// the piece that captured; with either of the two moves absent there is
/// no key, and the score read is zero.
pub proof fn lemma_followup_uses_captured(h: Seq<Undo>, g: Seq<u8>, m: Move)
    requires
        g.len() == 120,
        m.from < 120,
        is_piece(g[m.from as int]),
    ensures
        h.len() >= 2 && h[h.len() - 2].m != Move::spec_null() && h[h.len() - 1].m
            != Move::spec_null() && h[h.len() - 1].m.kind != MoveKind::EnPassant && h[h.len()
            - 2].m.to < 120 && is_piece(h[h.len() - 1].m.capture) && h[h.len() - 1].m.to == h[h.len()
            - 2].m.to ==> followup_key(h, g, m) == Some(
            (h[h.len() - 1].m.capture, h[h.len() - 2].m.to, g[m.from as int], m.to),
        ),
        h.len() < 2 ==> followup_key(h, g, m) is None,
        h.len() >= 2 && (h[h.len() - 2].m == Move::spec_null() || h[h.len() - 1].m
            == Move::spec_null()) ==> followup_key(h, g, m) is None,
{
}

impl Board {
    /// Adds `score` to the plain history of the piece `m` moves and its destination.
    pub fn add_history(&mut self, m: Move, score: i32)
        requires
            old(self).wf(),
            m.from < 120,
            m.to < 120,
            is_piece(old(self).grid()[m.from as int]),
        ensures
            final(self).wf(),
            final(self).same_position(old(self)),
            final(self).history_scores() == old(self).history_scores().update(
                single_index(old(self).grid()[m.from as int], m.to),
                saturate(
                    old(self).history_scores()[single_index(old(self).grid()[m.from as int], m.to)]
                        + score,
                ),
            ),
            final(self).countermoves() == old(self).countermoves(),
            final(self).followup_scores() == old(self).followup_scores(),
            final(self).killers() == old(self).killers(),
    {
        let piece_moved = self.moved_piece(m);
        let to = m.to();
        self.history_table.add(piece_moved, to, score);
        proof {
            lemma_history_kept(*old(self), *self);
        }
    }

    /// The plain history score of `m`.
    pub fn history_score(&self, m: Move) -> (r: i32)
        requires
            self.wf(),
            m.from < 120,
            m.to < 120,
            is_piece(self.grid()[m.from as int]),
        ensures
            r == self.history_scores()[single_index(self.grid()[m.from as int], m.to)],
    {
        let piece_moved = self.moved_piece(m);
        let to = m.to();
        self.history_table.get(piece_moved, to)
    }

    /// The countermove key of the current position, read from the last move.
    fn counter_key_of(&self) -> (r: Option<(u8, u8)>)
        requires
            self.wf(),
        ensures
            r == counter_key(self.history_view(), self.grid()),
    {
        let n = self.history.len();
        if n == 0 {
            return None;
        }
        let prev_move = self.history[n - 1].m;
        if prev_move.is_null() || prev_move.to() >= 120 {
            return None;
        }
        let prev_to = prev_move.to();
        let prev_piece = self.piece_at(prev_to);
        if prev_piece < 1 || prev_piece > 12 {
            return None;
        }
        Some((prev_piece, prev_to))
    }

    /// Records `m` as the answer to the last move made.
    pub fn insert_countermove(&mut self, m: Move)
        requires
            old(self).wf(),
        ensures
            final(self).wf(),
            final(self).same_position(old(self)),
            match counter_key(old(self).history_view(), old(self).grid()) {
                Some((p, sq)) => final(self).countermoves() == old(self).countermoves().update(
                    single_index(p, sq),
                    m,
                ),
                None => final(self).countermoves() == old(self).countermoves(),
            },
            final(self).history_scores() == old(self).history_scores(),
            final(self).followup_scores() == old(self).followup_scores(),
            final(self).killers() == old(self).killers(),
    {
        match self.counter_key_of() {
            Some((prev_piece, prev_to)) => {
                self.counter_move_table.add(prev_piece, prev_to, m);
            },
            None => {},
        }
    }

    /// Whether `m` is the recorded answer to the last move made.
    pub fn is_countermove(&self, m: Move) -> (r: bool)
        requires
            self.wf(),
        ensures
            r == match counter_key(self.history_view(), self.grid()) {
                Some((p, sq)) => self.countermoves()[single_index(p, sq)] == m,
                None => false,
            },
    {
        match self.counter_key_of() {
            Some((prev_piece, prev_to)) => self.counter_move_table.get(prev_piece, prev_to) == m,
            None => false,
        }
    }

    fn followup_key_of(&self, m: Move) -> (r: Option<(u8, u8, u8, u8)>)
        requires
            self.wf(),
            m.from < 120,
            m.to < 120,
        ensures
            r == followup_key(self.history_view(), self.grid(), m),
    {
        let n = self.history.len();
        if n < 2 {
            return None;
        }
        let move_to_follow_up = self.history[n - 2].m;
        let prev_move = self.history[n - 1].m;
        if move_to_follow_up.is_null() || prev_move.is_null() || prev_move.is_ep()
            || move_to_follow_up.to() >= 120 {
            return None;
        }
        let tpa_to = move_to_follow_up.to();
        let capture = prev_move.capture();
        let tpa_piece = if capture != EMPTY && prev_move.to() == tpa_to {
            capture
        } else {
            self.piece_at(tpa_to)
        };
        let piece = self.moved_piece(m);
        if tpa_piece < 1 || tpa_piece > 12 || piece < 1 || piece > 12 {
            return None;
        }
        Some((tpa_piece, tpa_to, piece, m.to()))
    }

    /// Adds `score` to the follow-up history of `m` after the move two plies back.
    pub fn add_followup_history(&mut self, m: Move, score: i32)
        requires
            old(self).wf(),
            m.from < 120,
            m.to < 120,
        ensures
            final(self).wf(),
            final(self).same_position(old(self)),
            match followup_key(old(self).history_view(), old(self).grid(), m) {
                Some((p1, s1, p2, s2)) => final(self).followup_scores() == old(
                    self,
                ).followup_scores().update(
                    double_index(p1, s1, p2, s2),
                    saturate(old(self).followup_scores()[double_index(p1, s1, p2, s2)] + score),
                ),
                None => final(self).followup_scores() == old(self).followup_scores(),
            },
            final(self).history_scores() == old(self).history_scores(),
            final(self).countermoves() == old(self).countermoves(),
            final(self).killers() == old(self).killers(),
    {
        match self.followup_key_of(m) {
            Some((tpa_piece, tpa_to, piece, to)) => {
                self.followup_history.add(tpa_piece, tpa_to, piece, to, score);
            },
            None => {},
        }
    }

    /// The follow-up history score of `m`; zero where there is no key.
    pub fn followup_history_score(&self, m: Move) -> (r: i32)
        requires
            self.wf(),
            m.from < 120,
            m.to < 120,
        ensures
            r == match followup_key(self.history_view(), self.grid(), m) {
                Some((p1, s1, p2, s2)) => self.followup_scores()[double_index(p1, s1, p2, s2)],
                None => 0,
            },
    {
        match self.followup_key_of(m) {
            Some((tpa_piece, tpa_to, piece, to)) => self.followup_history.get(
                tpa_piece,
                tpa_to,
                piece,
                to,
            ),
            None => 0,
        }
    }

    /// Makes `m` the first killer at the current height; the old first
    /// becomes the second.
    pub fn insert_killer(&mut self, m: Move)
        requires
            old(self).wf(),
            old(self).height_view() < MAX_DEPTH_PLY,
        ensures
            final(self).wf(),
            final(self).same_position(old(self)),
            final(self).killers() == old(self).killers().update(
                old(self).height_view() as int,
                (m, old(self).killers()[old(self).height_view() as int].0),
            ),
            final(self).history_scores() == old(self).history_scores(),
            final(self).countermoves() == old(self).countermoves(),
            final(self).followup_scores() == old(self).followup_scores(),
    {
        let h = self.height;
        let entry = self.killer_move_table[h];
        self.killer_move_table.set(h, (m, entry.0));
        proof {
            lemma_history_kept(*old(self), *self);
        }
    }

    /// Whether `m` is the first killer of two plies back.
    pub fn is_third_order_killer(&self, m: Move) -> (r: bool)
        requires
            self.wf(),
            self.height_view() < MAX_DEPTH_PLY + 2,
        ensures
            r == (self.height_view() > 2 && self.killers()[self.height_view() - 2].0 == m),
    {
        self.height > 2 && self.killer_move_table[self.height - 2].0 == m
    }
}

} // verus!
