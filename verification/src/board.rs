//! The 3x3 grid: cell storage and the queries over it (occupancy, the free
//! cells in ascending order, and the winner scan over the eight lines).
use vstd::prelude::*;

verus! {

/// What one cell can hold: the first player's mark, the second player's
/// mark, or nothing.
#[derive(Clone, Copy, Debug, PartialEq, Eq, Structural)]
pub enum Player {
    XPlayer,
    CirclePlayer,
    Empty,
}

impl Player {
    /// A real mark, as opposed to an empty cell.
    pub open spec fn is_mark(self) -> bool {
        self != Player::Empty
    }
}

/// The fixed 9-cell grid, indexed 0..9 with `index = 3*row + col`.
pub struct Board {
    pub positions: [Player; 9],
}

impl View for Board {
    type V = Seq<Player>;

    open spec fn view(&self) -> Seq<Player> {
        self.positions@
    }
}

/// The mark `p` holds all three cells `a`, `b`, `c`.
pub open spec fn owns_line(s: Seq<Player>, a: int, b: int, c: int, p: Player) -> bool {
    s[a] == p && s[b] == p && s[c] == p
}

/// The mark `p` holds one of the eight winning lines: the three rows, the
/// three columns, or the two diagonals.
pub open spec fn wins(s: Seq<Player>, p: Player) -> bool {
    p.is_mark() && (owns_line(s, 0, 1, 2, p) || owns_line(s, 3, 4, 5, p) || owns_line(
        s,
        6,
        7,
        8,
        p,
    ) || owns_line(s, 0, 3, 6, p) || owns_line(s, 1, 4, 7, p) || owns_line(s, 2, 5, 8, p)
        || owns_line(s, 0, 4, 8, p) || owns_line(s, 2, 4, 6, p))
}

/// The mark that holds the whole line `a`, `b`, `c`, or `Empty` when no
/// single mark does.
pub open spec fn line_owner(s: Seq<Player>, a: int, b: int, c: int) -> Player {
    if owns_line(s, a, b, c, Player::XPlayer) {
        Player::XPlayer
    } else if owns_line(s, a, b, c, Player::CirclePlayer) {
        Player::CirclePlayer
    } else {
        Player::Empty
    }
}

/// The winner of the grid: the owner of the first fully-held line, scanning
/// the eight lines in the fixed order the winner check uses, or `Empty` when
/// no line is fully held by one mark.
pub open spec fn winner_of(s: Seq<Player>) -> Player {
    if line_owner(s, 0, 1, 2) != Player::Empty {
        line_owner(s, 0, 1, 2)
    } else if line_owner(s, 0, 3, 6) != Player::Empty {
        line_owner(s, 0, 3, 6)
    } else if line_owner(s, 0, 4, 8) != Player::Empty {
        line_owner(s, 0, 4, 8)
    } else if line_owner(s, 1, 4, 7) != Player::Empty {
        line_owner(s, 1, 4, 7)
    } else if line_owner(s, 2, 5, 8) != Player::Empty {
        line_owner(s, 2, 5, 8)
    } else if line_owner(s, 2, 4, 6) != Player::Empty {
        line_owner(s, 2, 4, 6)
    } else if line_owner(s, 3, 4, 5) != Player::Empty {
        line_owner(s, 3, 4, 5)
    } else if line_owner(s, 6, 7, 8) != Player::Empty {
        line_owner(s, 6, 7, 8)
    } else {
        Player::Empty
    }
}

/// The indices below `n` whose cell is empty, in ascending order.
pub open spec fn free_prefix(s: Seq<Player>, n: int) -> Seq<usize>
    decreases n,
{
    if n <= 0 {
        Seq::empty()
    } else if s[n - 1] == Player::Empty {
        free_prefix(s, n - 1).push((n - 1) as usize)
    } else {
        free_prefix(s, n - 1)
    }
}

/// All empty indices of a full grid, in ascending order.
pub open spec fn free_cells(s: Seq<Player>) -> Seq<usize> {
    free_prefix(s, 9)
}

/// How many cells of the grid are empty.
pub open spec fn num_free(s: Seq<Player>) -> int {
    free_cells(s).len() as int
}

proof fn lemma_free_prefix_update(s: Seq<Player>, i: int, m: Player, n: int)
    requires
        0 <= i < s.len(),
        s[i] == Player::Empty,
        m != Player::Empty,
        0 <= n <= s.len(),
    ensures
        n <= i ==> free_prefix(s.update(i, m), n) == free_prefix(s, n),
        n > i ==> free_prefix(s.update(i, m), n).len() == free_prefix(s, n).len() - 1,
    decreases n,
{
    if n <= 0 {
    } else {
        lemma_free_prefix_update(s, i, m, n - 1);
        if n - 1 != i {
            assert(s.update(i, m)[n - 1] == s[n - 1]);
        }
    }
}

/// Marking one empty cell lowers the number of free cells by exactly one.
pub proof fn lemma_mark_lowers_num_free(s: Seq<Player>, i: int, m: Player)
    requires
        s.len() == 9,
        0 <= i < 9,
        s[i] == Player::Empty,
        m != Player::Empty,
    ensures
        num_free(s.update(i, m)) == num_free(s) - 1,
{
    lemma_free_prefix_update(s, i, m, 9);
}

proof fn lemma_free_prefix_all_empty(s: Seq<Player>, n: int)
    requires
        0 <= n <= s.len(),
        forall|i: int| 0 <= i < s.len() ==> s[i] == Player::Empty,
    ensures
        free_prefix(s, n).len() == n,
    decreases n,
{
    if n <= 0 {
    } else {
        lemma_free_prefix_all_empty(s, n - 1);
    }
}

/// A grid with every cell empty has all nine cells free.
pub proof fn lemma_all_empty_num_free(s: Seq<Player>)
    requires
        s.len() == 9,
        forall|i: int| 0 <= i < s.len() ==> s[i] == Player::Empty,
    ensures
        num_free(s) == 9,
{
    lemma_free_prefix_all_empty(s, 9);
}

impl Board {
    /// A fresh grid with every cell empty.
    pub fn new() -> (b: Board)
        ensures
            b@.len() == 9,
            forall|i: int| 0 <= i < 9 ==> b@[i] == Player::Empty,
            num_free(b@) == 9,
    {
        let b = Board {
            positions: [
                Player::Empty,
                Player::Empty,
                Player::Empty,
                Player::Empty,
                Player::Empty,
                Player::Empty,
                Player::Empty,
                Player::Empty,
                Player::Empty,
            ],
        };
        proof {
            lemma_all_empty_num_free(b@);
        }
        b
    }

    /// True exactly when the cell at `pos` is empty.
    pub fn free_position(&self, pos: usize) -> (r: bool)
        requires
            pos < 9,
        ensures
            r == (self@[pos as int] == Player::Empty),
    {
        match self.get_player_at_position(pos) {
            Player::Empty => true,
            _ => false,
        }
    }

    /// The flat index of the cell at `row`, `col`.
    pub fn calculate_position(row: usize, col: usize) -> (pos: usize)
        requires
            row < 3,
            col < 3,
        ensures
            pos == 3 * row + col,
    {
        (3 * row) + col
    }

    /// The mark held by the cell at `pos`.
    pub fn get_player_at_position(&self, pos: usize) -> (p: &Player)
        requires
            pos < 9,
        ensures
            *p == self@[pos as int],
    {
        &self.positions[pos]
    }

    /// The mark held by the cell at `row`, `col`.
    pub fn get_player_at_row_col(&self, row: usize, col: usize) -> (p: &Player)
        requires
            row < 3,
            col < 3,
        ensures
            *p == self@[3 * row + col],
    {
        let pos = Board::calculate_position(row, col);
        self.get_player_at_position(pos)
    }

    /// Overwrites the cell at `pos` with the given mark, unconditionally:
    /// only calling this on a free cell is the caller's policy, not the
    /// grid's.
    pub fn set_player_at_position(&mut self, player: &Player, pos: usize)
        requires
            pos < 9,
        ensures
            final(self)@ == old(self)@.update(pos as int, *player),
    {
        self.positions[pos] = *player;
    }

    /// All indices whose cell is empty, in ascending order, recomputed fresh
    /// on each call.
    pub fn free_positions(&self) -> (free: Vec<usize>)
        ensures
            free@ == free_cells(self@),
            free@.len() == num_free(self@),
            forall|i: int|
                0 <= i < free@.len() ==> #[trigger] free@[i] < 9 && self@[free@[i] as int]
                    == Player::Empty,
            forall|p: int| 0 <= p < 9 && self@[p] == Player::Empty ==> free@.contains(p as usize),
            forall|i: int, j: int| 0 <= i < j < free@.len() ==> free@[i] < free@[j],
    {
        let mut free: Vec<usize> = Vec::new();
        for index in 0..9usize
            invariant
                free@ == free_prefix(self@, index as int),
                forall|i: int|
                    0 <= i < free@.len() ==> #[trigger] free@[i] < index && self@[free@[i] as int]
                        == Player::Empty,
                forall|p: int|
                    0 <= p < index && self@[p] == Player::Empty ==> free@.contains(p as usize),
                forall|i: int, j: int| 0 <= i < j < free@.len() ==> free@[i] < free@[j],
        {
            if self.free_position(index) {
                let ghost prev = free@;
                free.push(index);
                proof {
                    assert forall|p: int|
                        0 <= p < index + 1 && self@[p] == Player::Empty implies free@.contains(
                        p as usize,
                    ) by {
                        if p < index {
                            let w = choose|i: int|
                                0 <= i < prev.len() && prev[i] == p as usize;
                            assert(free@[w] == p as usize);
                        } else {
                            assert(free@[free@.len() - 1] == p as usize);
                        }
                    }
                }
            }
        }
        free
    }

    /// The mark that fully holds the line `a`, `b`, `c`, or `Empty`.
    fn line_winner(&self, a: usize, b: usize, c: usize) -> (w: Player)
        requires
            a < 9,
            b < 9,
            c < 9,
        ensures
            w == line_owner(self@, a as int, b as int, c as int),
    {
        let first = self.get_player_at_position(a);
        let second = self.get_player_at_position(b);
        let third = self.get_player_at_position(c);
        match (first, second, third) {
            (Player::XPlayer, Player::XPlayer, Player::XPlayer) => Player::XPlayer,
            (Player::CirclePlayer, Player::CirclePlayer, Player::CirclePlayer) => {
                Player::CirclePlayer
            },
            _ => Player::Empty,
        }
    }

    /// Scans the eight winning lines in a fixed order and returns the mark
    /// that fully holds the first matching line, or `Empty` when no mark
    /// holds a line.
    pub fn check_winner(&self) -> (w: Player)
        ensures
            w == winner_of(self@),
            w != Player::Empty ==> wins(self@, w),
            (w == Player::Empty) <==> (!wins(self@, Player::XPlayer) && !wins(
                self@,
                Player::CirclePlayer,
            )),
    {
        let mut w = self.line_winner(0, 1, 2);
        if let Player::Empty = w {
            w = self.line_winner(0, 3, 6);
        } else {
            return w;
        }
        if let Player::Empty = w {
            w = self.line_winner(0, 4, 8);
        } else {
            return w;
        }
        if let Player::Empty = w {
            w = self.line_winner(1, 4, 7);
        } else {
            return w;
        }
        if let Player::Empty = w {
            w = self.line_winner(2, 5, 8);
        } else {
            return w;
        }
        if let Player::Empty = w {
            w = self.line_winner(2, 4, 6);
        } else {
            return w;
        }
        if let Player::Empty = w {
            w = self.line_winner(3, 4, 5);
        } else {
            return w;
        }
        if let Player::Empty = w {
            w = self.line_winner(6, 7, 8);
        }
        w
    }
}

} // verus!
