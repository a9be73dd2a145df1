use vstd::prelude::*;
use rand::Rng;
use crate::board::{
    Board, BoardDirection, can_move, after_move, apply_moves, arranged, cells_wf, cursor_of,
    grid_index, target_of, reachable, lemma_address_of_index, lemma_move_unarranges,
    lemma_move_target, lemma_reachable_refl, lemma_reachable_step, lemma_reachable_trans,
};
use crate::tile::Tile;

verus! {

/// How many counted moves a shuffle makes.
pub const SCATTER_MOVES: usize = 1000;

/// Every draw is taken from `0..DRAW_RANGE`; as it is a multiple of 2, 3 and
/// 4, a uniform draw picks uniformly among any 2, 3 or 4 legal directions.
pub const DRAW_RANGE: usize = 12;

/// The legal directions of the cursor, in the order UP, DOWN, LEFT, RIGHT.
pub open spec fn legal_dirs(size: int, s: Seq<Tile>) -> Seq<BoardDirection> {
    let up = if can_move(size, s, BoardDirection::UP) {
        seq![BoardDirection::UP]
    } else {
        Seq::empty()
    };
    let down = if can_move(size, s, BoardDirection::DOWN) {
        seq![BoardDirection::DOWN]
    } else {
        Seq::empty()
    };
    let left = if can_move(size, s, BoardDirection::LEFT) {
        seq![BoardDirection::LEFT]
    } else {
        Seq::empty()
    };
    let right = if can_move(size, s, BoardDirection::RIGHT) {
        seq![BoardDirection::RIGHT]
    } else {
        Seq::empty()
    };
    up + down + left + right
}

/// The legal direction that a draw picks.
pub open spec fn pick(size: int, s: Seq<Tile>, draw: int) -> BoardDirection {
    legal_dirs(size, s)[draw % (legal_dirs(size, s).len() as int)]
}

/// One counted shuffle move: a legal move picked by `first`, and where that
/// lands on the arranged layout, a second one picked by `second`.
pub open spec fn shuffle_round(size: int, s: Seq<Tile>, first: int, second: int) -> Seq<Tile> {
    let s1 = after_move(size, s, pick(size, s, first));
    if arranged(s1) {
        after_move(size, s1, pick(size, s1, second))
    } else {
        s1
    }
}

/// The cells after the first `k` counted moves, each taking two draws.
pub open spec fn shuffle_rounds(size: int, s: Seq<Tile>, draws: Seq<usize>, k: int) -> Seq<
    Tile,
>
    decreases k,
{
    if k <= 0 {
        s
    } else {
        let prev = shuffle_rounds(size, s, draws, k - 1);
        shuffle_round(size, prev, draws[2 * (k - 1)] as int, draws[2 * (k - 1) + 1] as int)
    }
}

/// The cells after a whole shuffle: the cursor is sent DOWN once, then
/// `SCATTER_MOVES` counted moves follow.
pub open spec fn scattered(size: int, s: Seq<Tile>, draws: Seq<usize>) -> Seq<Tile> {
    shuffle_rounds(
        size,
        after_move(size, s, BoardDirection::DOWN),
        draws,
        SCATTER_MOVES as int,
    )
}

/// Some legal move is open to the cursor, whatever the layout.
pub proof fn lemma_some_move_is_legal(size: int, s: Seq<Tile>)
    requires
        cells_wf(size, s),
    ensures
        legal_dirs(size, s).len() > 0,
{
    lemma_move_target(size, s, BoardDirection::DOWN);
    let c = cursor_of(s);
    lemma_address_of_index(size, c);
    let x = c % size;
    let y = c / size;
    assert(s[c].address.0 == x && s[c].address.1 == y);
    if y == 0 {
        assert(c == grid_index(size, (x, y)));
        assert(c == x) by (nonlinear_arith)
            requires
                c == y * size + x,
                y == 0,
        ;
        assert(s[c].value is Some);
        assert(c == 0);
        let g = grid_index(size, target_of(s[c].address, BoardDirection::DOWN));
        assert(g == size) by (nonlinear_arith)
            requires
                g == 1 * size + 0,
        ;
        crate::board::lemma_index_of_address(size, target_of(s[c].address, BoardDirection::DOWN));
        assert(can_move(size, s, BoardDirection::DOWN));
    } else if x > 0 {
        let g = grid_index(size, target_of(s[c].address, BoardDirection::LEFT));
        assert(g >= size) by (nonlinear_arith)
            requires
                g == y * size + x - 1,
                y >= 1,
                x >= 1,
                size >= 2,
        ;
        crate::board::lemma_index_of_address(size, target_of(s[c].address, BoardDirection::LEFT));
        assert(can_move(size, s, BoardDirection::LEFT));
    } else {
        let g = grid_index(size, target_of(s[c].address, BoardDirection::RIGHT));
        assert(g >= size) by (nonlinear_arith)
            requires
                g == y * size + x + 1,
                y >= 1,
                x == 0,
                size >= 2,
        ;
        crate::board::lemma_index_of_address(size, target_of(s[c].address, BoardDirection::RIGHT));
        assert(can_move(size, s, BoardDirection::RIGHT));
    }
}

/// Every direction in `legal_dirs` is legal.
pub proof fn lemma_legal_dirs_are_legal(size: int, s: Seq<Tile>, i: int)
    requires
        0 <= i < legal_dirs(size, s).len(),
    ensures
        can_move(size, s, legal_dirs(size, s)[i]),
{
}

/// Relies on rand::thread_rng and rand::Rng::gen_range: a number drawn from
/// `0..bound`; gen_range panics only on an empty range.
#[verifier::external_body]
fn random_below(bound: usize) -> (r: usize)
    requires
        bound > 0,
    ensures
        r < bound,
{
    rand::thread_rng().gen_range(0..bound)
}

impl Board {
    /// The directions in which the cursor can move, in the order UP, DOWN,
    /// LEFT, RIGHT.
    pub fn legal_directions(&self) -> (r: Vec<BoardDirection>)
        requires
            self.wf(),
        ensures
            r@ == legal_dirs(self.row as int, self.cells@),
            r@.len() > 0,
    {
        let ghost size = self.row as int;
        let ghost s = self.cells@;
        let mut r: Vec<BoardDirection> = Vec::new();
        if self.can_move_tile(BoardDirection::UP) {
            r.push(BoardDirection::UP);
        }
        if self.can_move_tile(BoardDirection::DOWN) {
            r.push(BoardDirection::DOWN);
        }
        if self.can_move_tile(BoardDirection::LEFT) {
            r.push(BoardDirection::LEFT);
        }
        if self.can_move_tile(BoardDirection::RIGHT) {
            r.push(BoardDirection::RIGHT);
        }
        assert(r@ =~= legal_dirs(size, s));
        proof {
            lemma_some_move_is_legal(size, s);
        }
        r
    }

    /// The legal direction that `draw` picks: the one at `draw` modulo their
    /// number in `legal_directions`.
    pub fn pick_direction(&self, draw: usize) -> (r: BoardDirection)
        requires
            self.wf(),
        ensures
            r == pick(self.row as int, self.cells@, draw as int),
            can_move(self.row as int, self.cells@, r),
    {
        let legal = self.legal_directions();
        let d = legal[draw % legal.len()];
        proof {
            lemma_legal_dirs_are_legal(self.row as int, self.cells@, (draw % legal.len()) as int);
        }
        d
    }

    /// One counted shuffle move: the cursor moves in the legal direction
    /// that `first` picks; where that lands on the arranged layout, it moves
    /// once more, in the one that `second` picks.
    fn shuffle_round(&mut self, first: usize, second: usize)
        requires
            old(self).wf(),
        ensures
            final(self).wf(),
            final(self).cells@ == shuffle_round(
                old(self).row as int,
                old(self).cells@,
                first as int,
                second as int,
            ),
            !arranged(final(self).cells@),
            reachable(old(self).row as int, old(self).cells@, final(self).cells@),
            final(self).row == old(self).row,
            final(self).position == old(self).position,
            final(self).show_help == old(self).show_help,
    {
        let ghost size = self.row as int;
        let ghost s0 = self.cells@;
        proof {
            lemma_reachable_refl(size, s0);
        }
        let d = self.pick_direction(first);
        self.move_tile(d);
        proof {
            lemma_reachable_step(size, s0, s0, d);
        }
        if self.check_arranged() {
            let ghost s1 = self.cells@;
            let d2 = self.pick_direction(second);
            proof {
                lemma_move_unarranges(size, s1, d2);
                lemma_reachable_step(size, s0, s1, d2);
            }
            self.move_tile(d2);
        }
    }

    /// Shuffles the board with the given draws: the cursor is sent DOWN
    /// once, then `SCATTER_MOVES` counted moves follow, the k-th of which
    /// takes draws `2 * k` and `2 * k + 1`. The board ends unarranged, and
    /// reached from where it was by legal moves alone.
    pub fn scatter_with(&mut self, draws: &Vec<usize>)
        requires
            old(self).wf(),
            draws@.len() >= 2 * SCATTER_MOVES,
        ensures
            final(self).wf(),
            final(self).cells@ == scattered(old(self).row as int, old(self).cells@, draws@),
            !arranged(final(self).cells@),
            reachable(old(self).row as int, old(self).cells@, final(self).cells@),
            final(self).row == old(self).row,
            final(self).col == old(self).col,
            final(self).position == old(self).position,
            final(self).show_help == old(self).show_help,
    {
        let ghost size = self.row as int;
        let ghost s0 = self.cells@;
        let ghost col = self.col;
        let ghost position = self.position;
        let ghost show_help = self.show_help;
        proof {
            lemma_reachable_refl(size, s0);
            lemma_reachable_step(size, s0, s0, BoardDirection::DOWN);
        }
        self.move_tile(BoardDirection::DOWN);
        let ghost start = self.cells@;
        let mut k: usize = 0;
        while k < SCATTER_MOVES
            invariant
                self.wf(),
                self.row == size,
                self.col == col,
                self.position == position,
                self.show_help == show_help,
                k <= SCATTER_MOVES,
                draws@.len() >= 2 * SCATTER_MOVES,
                self.cells@ == shuffle_rounds(size, start, draws@, k as int),
                reachable(size, s0, self.cells@),
                k > 0 ==> !arranged(self.cells@),
            decreases SCATTER_MOVES - k,
        {
            let ghost before = self.cells@;
            self.shuffle_round(draws[2 * k], draws[2 * k + 1]);
            proof {
                lemma_reachable_trans(size, s0, before, self.cells@);
            }
            k += 1;
        }
    }

    /// Shuffles the board with draws from the thread's random generator, as
    /// `scatter_with` does. The board ends unarranged, and reached from where
    /// it was by legal moves alone.
    pub fn scatter(&mut self)
        requires
            old(self).wf(),
        ensures
            final(self).wf(),
            !arranged(final(self).cells@),
            reachable(old(self).row as int, old(self).cells@, final(self).cells@),
            exists|draws: Seq<usize>|
                #![trigger scattered(old(self).row as int, old(self).cells@, draws)]
                draws.len() == 2 * SCATTER_MOVES && (forall|i: int|
                    0 <= i < draws.len() ==> #[trigger] draws[i] < DRAW_RANGE) && final(self).cells@
                    == scattered(old(self).row as int, old(self).cells@, draws),
            final(self).row == old(self).row,
            final(self).col == old(self).col,
            final(self).position == old(self).position,
            final(self).show_help == old(self).show_help,
    {
        let mut draws: Vec<usize> = Vec::new();
        let mut i: usize = 0;
        while i < 2 * SCATTER_MOVES
            invariant
                i <= 2 * SCATTER_MOVES,
                draws@.len() == i,
                forall|j: int| 0 <= j < i ==> #[trigger] draws@[j] < DRAW_RANGE,
            decreases 2 * SCATTER_MOVES - i,
        {
            draws.push(random_below(DRAW_RANGE));
            i += 1;
        }
        self.scatter_with(&draws);
    }
}

} // verus!
