//! Turn sequencing and move legality: a `Game` owns one `Board` and the mark
//! whose turn it is, and accepts a move only on a free cell.
use crate::board::Board;
use crate::board::Player;
use crate::board::lemma_mark_lowers_num_free;
use crate::board::num_free;
use vstd::prelude::*;

verus! {

/// One match: the grid plus whose turn it is.
pub struct Game {
    pub board: Board,
    pub current_player: Player,
}

/// The other player's mark.
pub open spec fn toggled(p: Player) -> Player {
    if p == Player::XPlayer {
        Player::CirclePlayer
    } else {
        Player::XPlayer
    }
}

/// A move at `pos` would land on a free cell.
pub open spec fn accepts(st: (Seq<Player>, Player), pos: int) -> bool {
    st.0[pos] == Player::Empty
}

/// One attempted move as a pure transition on (grid, current player): on a
/// free cell the cell takes the mover's mark and the turn passes; otherwise
/// nothing changes.
pub open spec fn step(st: (Seq<Player>, Player), pos: int) -> (Seq<Player>, Player) {
    if accepts(st, pos) {
        (st.0.update(pos, st.1), toggled(st.1))
    } else {
        st
    }
}

/// A whole sequence of attempted moves, applied in order.
pub open spec fn run(st: (Seq<Player>, Player), moves: Seq<int>) -> (Seq<Player>, Player)
    decreases moves.len(),
{
    if moves.len() == 0 {
        st
    } else {
        run(step(st, moves[0]), moves.drop_first())
    }
}

/// The mark that moves on turn `k` when `first` moves on turn 0 and every
/// move in between is accepted.
pub open spec fn player_for_turn(first: Player, k: int) -> Player {
    if k % 2 == 0 {
        first
    } else {
        toggled(first)
    }
}

/// A rejected move changes nothing, and a cell once marked stays marked:
/// attempting the same position twice, the second attempt is rejected and
/// leaves the whole state, grid and turn, exactly as the first left it.
pub proof fn lemma_repeat_move_rejected(st: (Seq<Player>, Player), pos: int)
    requires
        0 <= pos < st.0.len(),
        st.1.is_mark(),
    ensures
        !accepts(step(st, pos), pos),
        step(step(st, pos), pos) == step(st, pos),
{
}

/// An accepted move passes the turn to the other mark; a rejected move
/// leaves the state, current player included, unchanged.
pub proof fn lemma_move_toggles_player(st: (Seq<Player>, Player), pos: int)
    requires
        0 <= pos < st.0.len(),
        st.1.is_mark(),
    ensures
        accepts(st, pos) ==> step(st, pos).1 == toggled(st.1) && step(st, pos).1 != st.1,
        !accepts(st, pos) ==> step(st, pos) == st,
{
}

/// No sequence of moves ever changes an occupied cell: moves only ever fill
/// empty cells.
pub proof fn lemma_run_keeps_occupied(st: (Seq<Player>, Player), moves: Seq<int>, p: int)
    requires
        0 <= p < st.0.len(),
        st.0[p] != Player::Empty,
        forall|i: int| 0 <= i < moves.len() ==> 0 <= #[trigger] moves[i] < st.0.len(),
    ensures
        run(st, moves).0.len() == st.0.len(),
        run(st, moves).0[p] == st.0[p],
    decreases moves.len(),
{
    if moves.len() == 0 {
    } else {
        let st1 = step(st, moves[0]);
        let rest = moves.drop_first();
        assert(forall|i: int| 0 <= i < rest.len() ==> rest[i] == moves[i + 1]);
        lemma_run_keeps_occupied(st1, rest, p);
    }
}

/// Playing any sequence of moves at pairwise-distinct cells that are all
/// free at the start: every move is accepted; afterwards each targeted cell
/// holds the mark of whoever was current player just before that move
/// (marks alternate starting from `cur`); the turn has passed once per move;
/// and exactly one cell per move has been filled.
pub proof fn lemma_distinct_free_moves(s: Seq<Player>, cur: Player, moves: Seq<int>)
    requires
        s.len() == 9,
        cur.is_mark(),
        forall|i: int| 0 <= i < moves.len() ==> 0 <= #[trigger] moves[i] < 9,
        forall|i: int, j: int| 0 <= i < j < moves.len() ==> moves[i] != moves[j],
        forall|i: int| 0 <= i < moves.len() ==> s[#[trigger] moves[i]] == Player::Empty,
    ensures
        forall|k: int|
            0 <= k < moves.len() ==> accepts(run((s, cur), moves.take(k)), #[trigger] moves[k]),
        forall|k: int|
            0 <= k < moves.len() ==> run((s, cur), moves).0[#[trigger] moves[k]]
                == player_for_turn(cur, k),
        run((s, cur), moves).1 == player_for_turn(cur, moves.len() as int),
        run((s, cur), moves).0.len() == 9,
        num_free(run((s, cur), moves).0) == num_free(s) - moves.len(),
    decreases moves.len(),
{
    let st = (s, cur);
    if moves.len() == 0 {
    } else {
        let pos0 = moves[0];
        let st1 = step(st, pos0);
        let rest = moves.drop_first();
        assert(accepts(st, pos0));
        assert(st1.0 == s.update(pos0, cur));
        assert(forall|i: int| 0 <= i < rest.len() ==> rest[i] == moves[i + 1]);
        assert forall|i: int| 0 <= i < rest.len() implies st1.0[#[trigger] rest[i]]
            == Player::Empty by {
            assert(moves[i + 1] != moves[0]);
        }
        lemma_distinct_free_moves(st1.0, st1.1, rest);
        lemma_mark_lowers_num_free(s, pos0, cur);
        assert(run(st, moves) == run(st1, rest));
        assert forall|k: int| 0 <= k < moves.len() implies accepts(
            run(st, moves.take(k)),
            #[trigger] moves[k],
        ) by {
            if k == 0 {
                assert(moves.take(0).len() == 0);
            } else {
                let tk = moves.take(k);
                assert(tk.len() == k && tk[0] == pos0);
                assert(tk.drop_first() =~= rest.take(k - 1));
                assert(run(st, tk) == run(st1, rest.take(k - 1)));
                assert(accepts(run(st1, rest.take(k - 1)), rest[k - 1]));
                assert(rest[k - 1] == moves[k]);
            }
        }
        assert forall|k: int| 0 <= k < moves.len() implies run(st, moves).0[#[trigger] moves[k]]
            == player_for_turn(cur, k) by {
            if k == 0 {
                lemma_run_keeps_occupied(st1, rest, pos0);
                assert(run(st1, rest).0[pos0] == cur);
            } else {
                assert(run(st1, rest).0[rest[k - 1]] == player_for_turn(st1.1, k - 1));
                assert(player_for_turn(toggled(cur), k - 1) == player_for_turn(cur, k));
            }
        }
        assert(player_for_turn(toggled(cur), moves.len() - 1) == player_for_turn(
            cur,
            moves.len() as int,
        ));
    }
}

impl Game {
    /// During play the current player is always a real mark, never `Empty`.
    pub open spec fn wf(self) -> bool {
        &&& self.current_player.is_mark()
        &&& self.board@.len() == 9
    }

    /// A fresh match: every cell empty, the first player to move.
    pub fn new() -> (g: Game)
        ensures
            g.wf(),
            g.current_player == Player::XPlayer,
            forall|i: int| 0 <= i < 9 ==> g.board@[i] == Player::Empty,
            num_free(g.board@) == 9,
    {
        Game { board: Board::new(), current_player: Player::XPlayer }
    }

    /// Swaps whose turn it is; the grid is untouched.
    pub fn toggle_player(&mut self)
        ensures
            final(self).current_player == toggled(old(self).current_player),
            final(self).board == old(self).board,
    {
        if let Player::XPlayer = self.current_player {
            self.current_player = Player::CirclePlayer;
        } else {
            self.current_player = Player::XPlayer;
        }
    }

    /// Attempts a move at `pos`: on a free cell it sets the cell to the
    /// current player's mark, passes the turn, and returns true; on an
    /// occupied cell it returns false and changes nothing.
    pub fn do_move(&mut self, pos: usize) -> (accepted: bool)
        requires
            pos < 9,
            old(self).wf(),
        ensures
            final(self).wf(),
            accepted == (old(self).board@[pos as int] == Player::Empty),
            accepted ==> final(self).board@ == old(self).board@.update(
                pos as int,
                old(self).current_player,
            ) && final(self).current_player == toggled(old(self).current_player),
            accepted ==> num_free(final(self).board@) == num_free(old(self).board@) - 1,
            !accepted ==> *final(self) == *old(self),
            (final(self).board@, final(self).current_player) == step(
                (old(self).board@, old(self).current_player),
                pos as int,
            ),
    {
        if self.board.free_position(pos) {
            let mark = self.current_player;
            proof {
                lemma_mark_lowers_num_free(self.board@, pos as int, mark);
            }
            self.board.set_player_at_position(&mark, pos);
            self.toggle_player();
            true
        } else {
            false
        }
    }

    /// All free cell indices, in ascending order; delegates to the grid.
    pub fn free_positions(&self) -> (free: Vec<usize>)
        ensures
            free@ == crate::board::free_cells(self.board@),
            free@.len() == num_free(self.board@),
            forall|i: int|
                0 <= i < free@.len() ==> #[trigger] free@[i] < 9 && self.board@[free@[i] as int]
                    == Player::Empty,
            forall|p: int|
                0 <= p < 9 && self.board@[p] == Player::Empty ==> free@.contains(p as usize),
            forall|i: int, j: int| 0 <= i < j < free@.len() ==> free@[i] < free@[j],
    {
        self.board.free_positions()
    }

    /// The winner so far, or `Empty` while nobody holds a full line;
    /// delegates to the grid's winner scan.
    pub fn winner(&self) -> (w: Player)
        ensures
            w == crate::board::winner_of(self.board@),
            w != Player::Empty ==> crate::board::wins(self.board@, w),
            (w == Player::Empty) <==> (!crate::board::wins(self.board@, Player::XPlayer)
                && !crate::board::wins(self.board@, Player::CirclePlayer)),
    {
        self.board.check_winner()
    }
}

} // verus!
