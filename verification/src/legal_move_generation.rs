use vstd::prelude::*;

use crate::apply_moves::apply_move_spec;
use crate::initialize_board::Board;
use crate::pseudo_legal_move_generation::Move;
use crate::pseudo_legal_move_generation::in_check;
use crate::pseudo_legal_move_generation::lemma_push_contains;
use crate::pseudo_legal_move_generation::lemma_push_no_dup;
use crate::pseudo_legal_move_generation::pseudo_legal;

verus! {

impl Board {
    /// The fully legal moves of the side to move: each pseudo-legal
    /// move is applied to a disposable copy of the position and kept
    /// exactly when the mover's own king is not left in check.
    pub fn generate_legal_moves(&self) -> (legal_moves: Vec<Move>)
        requires
            self.wf(),
            self.half_moves < 0xFFFFFFFFu32,
            self.full_moves < 0xFFFFFFFFu32,
        ensures
            legal_moves@.no_duplicates(),
            forall|x: Move|
                #[trigger] legal_moves@.contains(x) <==> pseudo_legal(*self, x) && !in_check(
                    apply_move_spec(*self, x),
                    self.turn,
                ),
    {
        let pseudo_moves = self.generate_pseudo_moves();
        let mut legal_moves: Vec<Move> = Vec::new();

        let original_turn = self.turn;

        let mut i: usize = 0;
        while i < pseudo_moves.len()
            invariant
                i <= pseudo_moves@.len(),
                self.wf(),
                self.half_moves < 0xFFFFFFFFu32,
                self.full_moves < 0xFFFFFFFFu32,
                original_turn == self.turn,
                pseudo_moves@.no_duplicates(),
                legal_moves@.no_duplicates(),
                forall|x: Move| #[trigger] pseudo_moves@.contains(x) <==> pseudo_legal(*self, x),
                forall|x: Move|
                    #[trigger] legal_moves@.contains(x) <==> pseudo_moves@.subrange(
                        0,
                        i as int,
                    ).contains(x) && !in_check(apply_move_spec(*self, x), self.turn),
            decreases pseudo_moves@.len() - i,
        {
            let m = pseudo_moves[i];
            proof {
                assert(pseudo_moves@.contains(m));
            }
            // Probe the move on a copy of the position.
            let mut temp_board = *self;
            temp_board.apply_move(&m);

            // After the move it is the opponent's turn: keep the move
            // if our own king is not attacked in the new position.
            let keep = !temp_board.is_in_check(original_turn);
            let ghost legal_prev = legal_moves@;
            if keep {
                proof {
                    // The move is new to the kept list: an earlier copy
                    // would be a duplicate inside the pseudo list.
                    if legal_prev.contains(m) {
                        assert(pseudo_moves@.subrange(0, i as int).contains(m));
                        let j = choose|j: int|
                            0 <= j < i && pseudo_moves@.subrange(0, i as int)[j] == m;
                        assert(pseudo_moves@[j] == pseudo_moves@[i as int]);
                        assert(false);
                    }
                }
                legal_moves.push(m);
                proof {
                    lemma_push_no_dup(legal_prev, m);
                }
            }
            proof {
                assert(pseudo_moves@.subrange(0, i + 1) =~= pseudo_moves@.subrange(
                    0,
                    i as int,
                ).push(m));
                assert forall|x: Move| #[trigger] legal_moves@.contains(x) <==> pseudo_moves@
                    .subrange(0, i + 1).contains(x) && !in_check(
                    apply_move_spec(*self, x),
                    self.turn,
                ) by {
                    lemma_push_contains(pseudo_moves@.subrange(0, i as int), m, x);
                    if keep {
                        lemma_push_contains(legal_prev, m, x);
                    }
                }
            }
            i += 1;
        }
        proof {
            assert(pseudo_moves@.subrange(0, pseudo_moves@.len() as int) =~= pseudo_moves@);
        }
        legal_moves
    }
}

} // verus!
