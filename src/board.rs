use vstd::prelude::*;
use vstd::arithmetic::div_mod::{
    lemma_fundamental_div_mod, lemma_fundamental_div_mod_converse, lemma_mod_pos_bound,
    lemma_div_pos_is_pos,
};
use crate::geometry::{Point, Rect};
use crate::tile::{Tile, TILE_SIZE, TILE_SPACING, swapped_self, swapped_other};

verus! {

/// A direction in which the cursor moves.
#[derive(Clone, Copy, Debug, PartialEq, Eq, Structural)]
pub enum BoardDirection {
    UP,
    LEFT,
    RIGHT,
    DOWN,
}

/// The direction that undoes a move in `d`.
pub open spec fn opposite(d: BoardDirection) -> BoardDirection {
    match d {
        BoardDirection::UP => BoardDirection::DOWN,
        BoardDirection::DOWN => BoardDirection::UP,
        BoardDirection::LEFT => BoardDirection::RIGHT,
        BoardDirection::RIGHT => BoardDirection::LEFT,
    }
}

/// The neighbour of address `a` in direction `d`.
pub open spec fn target_of(a: (i32, i32), d: BoardDirection) -> (int, int) {
    match d {
        BoardDirection::UP => (a.0 as int, a.1 - 1),
        BoardDirection::DOWN => (a.0 as int, a.1 + 1),
        BoardDirection::LEFT => (a.0 - 1, a.1 as int),
        BoardDirection::RIGHT => (a.0 + 1, a.1 as int),
    }
}

/// The address space of a board of play size `size`: `size` columns, a
/// header row 0 and play rows 1 to `size`.
pub open spec fn in_grid(size: int, a: (int, int)) -> bool {
    0 <= a.0 < size && 0 <= a.1 <= size
}

/// Where the cell with address `a` stands in the board's cells.
pub open spec fn grid_index(size: int, a: (int, int)) -> int {
    a.1 * size + a.0
}

/// The number of cells of a board of play size `size`.
pub open spec fn cell_count(size: int) -> int {
    size * size + size
}

/// The cells of a board of play size `size` are laid out row by row, each
/// at its fixed address; the header row holds blocking tiles but for its
/// first cell; exactly one tile is selected, and it is the one that holds 0.
pub open spec fn cells_wf(size: int, s: Seq<Tile>) -> bool {
    &&& 2 <= size
    &&& cell_count(size) <= i32::MAX
    &&& s.len() == cell_count(size)
    &&& forall|i: int|
        0 <= i < s.len() ==> (#[trigger] s[i]).address.0 == i % size && s[i].address.1 == i
            / size
    &&& forall|i: int| 0 <= i < s.len() ==> ((#[trigger] s[i]).value is None <==> 1 <= i < size)
    &&& forall|i: int|
        0 <= i < s.len() ==> ((#[trigger] s[i]).selected <==> s[i].value == Some(0i32))
    &&& exists|c: int| 0 <= c < s.len() && (#[trigger] s[c]).selected
    &&& forall|i: int, j: int|
        0 <= i < s.len() && 0 <= j < s.len() && (#[trigger] s[i]).selected
            && (#[trigger] s[j]).selected ==> i == j
}

/// The index of the selected tile.
pub open spec fn cursor_of(s: Seq<Tile>) -> int {
    choose|c: int| 0 <= c < s.len() && (#[trigger] s[c]).selected
}

/// The contents of two tiles exchanged, as `Tile::swap_value` does it.
pub open spec fn swap_tiles(s: Seq<Tile>, i: int, j: int) -> Seq<Tile> {
    s.update(i, swapped_self(s[i], s[j])).update(j, swapped_other(s[i], s[j]))
}

/// Whether the cursor can move in direction `d`: its neighbour there exists
/// and is no blocking tile.
pub open spec fn can_move(size: int, s: Seq<Tile>, d: BoardDirection) -> bool {
    let t = target_of(s[cursor_of(s)].address, d);
    in_grid(size, t) && s[grid_index(size, t)].value is Some
}

/// The cells after an attempt to move the cursor in direction `d`.
pub open spec fn after_move(size: int, s: Seq<Tile>, d: BoardDirection) -> Seq<Tile> {
    if can_move(size, s, d) {
        swap_tiles(s, cursor_of(s), grid_index(size, target_of(s[cursor_of(s)].address, d)))
    } else {
        s
    }
}

/// The cells after a series of move attempts, in order.
pub open spec fn apply_moves(size: int, s: Seq<Tile>, ds: Seq<BoardDirection>) -> Seq<Tile>
    decreases ds.len(),
{
    if ds.len() == 0 {
        s
    } else {
        after_move(size, apply_moves(size, s, ds.drop_last()), ds.last())
    }
}

/// Whether `to` is reached from `from` by a series of move attempts.
pub open spec fn reachable(size: int, from: Seq<Tile>, to: Seq<Tile>) -> bool {
    exists|ds: Seq<BoardDirection>| to == #[trigger] apply_moves(size, from, ds)
}

/// Every layout reaches itself.
pub proof fn lemma_reachable_refl(size: int, s: Seq<Tile>)
    ensures
        reachable(size, s, s),
{
    assert(apply_moves(size, s, Seq::empty()) == s);
}

/// One more move attempt keeps a layout reachable.
pub proof fn lemma_reachable_step(size: int, from: Seq<Tile>, to: Seq<Tile>, d: BoardDirection)
    requires
        reachable(size, from, to),
    ensures
        reachable(size, from, after_move(size, to, d)),
{
    let ds = choose|ds: Seq<BoardDirection>| to == #[trigger] apply_moves(size, from, ds);
    let next = ds.push(d);
    assert(next.drop_last() =~= ds);
    assert(apply_moves(size, from, next) == after_move(size, to, d));
}

/// A layout reached from one that is reached from `from` is reached from
/// `from`.
pub proof fn lemma_reachable_trans(size: int, from: Seq<Tile>, mid: Seq<Tile>, to: Seq<Tile>)
    requires
        reachable(size, from, mid),
        reachable(size, mid, to),
    ensures
        reachable(size, from, to),
{
    let a = choose|ds: Seq<BoardDirection>| mid == #[trigger] apply_moves(size, from, ds);
    let b = choose|ds: Seq<BoardDirection>| to == #[trigger] apply_moves(size, mid, ds);
    lemma_apply_moves_concat(size, from, a, b);
}

proof fn lemma_apply_moves_concat(
    size: int,
    s: Seq<Tile>,
    a: Seq<BoardDirection>,
    b: Seq<BoardDirection>,
)
    ensures
        apply_moves(size, s, a + b) == apply_moves(size, apply_moves(size, s, a), b),
    decreases b.len(),
{
    if b.len() == 0 {
        assert(a + b =~= a);
    } else {
        lemma_apply_moves_concat(size, s, a, b.drop_last());
        assert((a + b).drop_last() =~= a + b.drop_last());
        assert((a + b).last() == b.last());
    }
}

/// How many tiles of `s` hold a value.
pub open spec fn defined_count(s: Seq<Tile>) -> int
    decreases s.len(),
{
    if s.len() == 0 {
        0
    } else {
        defined_count(s.drop_last()) + if s.last().value is Some {
            1int
        } else {
            0int
        }
    }
}

/// The values that the tiles hold, read in order, are 0, 1, 2, ... without gap.
pub open spec fn arranged(s: Seq<Tile>) -> bool {
    forall|i: int|
        0 <= i < s.len() && (#[trigger] s[i]).value is Some ==> s[i].value->0 == defined_count(
            s.take(i),
        )
}

/// The position of the cell at address `a` on a board drawn from `topleft`.
pub open spec fn cell_position(topleft: Point, a: (int, int)) -> Point {
    Point { x: (110 * a.0 + topleft.x) as i32, y: (110 * a.1 + topleft.y) as i32 }
}

/// The tile at index `i` of a new board.
pub open spec fn initial_tile(size: int, topleft: Point, i: int) -> Tile {
    let a = (i % size, i / size);
    let p = cell_position(topleft, a);
    Tile {
        selected: i == 0,
        value: if i == 0 {
            Some(0i32)
        } else if i < size {
            None
        } else {
            Some((i - size + 1) as i32)
        },
        address: (a.0 as i32, a.1 as i32),
        position: p,
        image_src_rect: if i < size {
            None
        } else {
            Some(Rect { x: (110 * a.0) as i32, y: (110 * (a.1 - 1)) as i32, width: 100, height: 100 })
        },
        image_dest_rect: if 1 <= i < size {
            None
        } else {
            Some(Rect { x: p.x, y: p.y, width: 100, height: 100 })
        },
    }
}

/// What a board of play size `size`, drawn from `topleft`, needs so that all
/// its values and positions fit in an `i32`.
pub open spec fn board_fits(size: int, topleft: Point) -> bool {
    &&& 2 <= size
    &&& cell_count(size) <= i32::MAX
    &&& 110 * size + topleft.x <= i32::MAX
    &&& 110 * size + topleft.y <= i32::MAX
}

/// The puzzle: a header row of blocking tiles above an N by N grid of
/// numbered tiles, and the cursor.
pub struct Board {
    pub row: i32,
    pub col: i32,
    pub position: Point,
    pub cells: Vec<Tile>,
    pub show_help: bool,
}

/// The address of the cell at index `i` lies on the grid and leads back to `i`.
pub proof fn lemma_address_of_index(size: int, i: int)
    requires
        2 <= size,
        0 <= i < cell_count(size),
    ensures
        in_grid(size, (i % size, i / size)),
        grid_index(size, (i % size, i / size)) == i,
{
    lemma_fundamental_div_mod(i, size);
    lemma_mod_pos_bound(i, size);
    lemma_div_pos_is_pos(i, size);
    let q = i / size;
    let r = i % size;
    assert(q <= size) by (nonlinear_arith)
        requires
            i == size * q + r,
            0 <= r,
            i < size * size + size,
            size >= 2,
    ;
    assert(grid_index(size, (r, q)) == i) by (nonlinear_arith)
        requires
            i == size * q + r,
    ;
}

/// A cell address on the grid leads to an index whose address it is.
pub proof fn lemma_index_of_address(size: int, a: (int, int))
    requires
        2 <= size,
        in_grid(size, a),
    ensures
        0 <= grid_index(size, a) < cell_count(size),
        grid_index(size, a) % size == a.0,
        grid_index(size, a) / size == a.1,
{
    let g = grid_index(size, a);
    assert(0 <= g < cell_count(size)) by (nonlinear_arith)
        requires
            0 <= a.0 < size,
            0 <= a.1 <= size,
            g == a.1 * size + a.0,
    ;
    lemma_fundamental_div_mod_converse(g, size, a.1, a.0);
}

/// Facts on the cursor and the target of a legal move.
pub proof fn lemma_move_target(size: int, s: Seq<Tile>, d: BoardDirection)
    requires
        cells_wf(size, s),
    ensures
        0 <= cursor_of(s) < s.len(),
        s[cursor_of(s)].selected,
        s[cursor_of(s)].value == Some(0i32),
        can_move(size, s, d) ==> {
            let t = grid_index(size, target_of(s[cursor_of(s)].address, d));
            &&& 0 <= t < s.len()
            &&& t != cursor_of(s)
            &&& s[t].address.0 == target_of(s[cursor_of(s)].address, d).0
            &&& s[t].address.1 == target_of(s[cursor_of(s)].address, d).1
            &&& !s[t].selected
            &&& s[t].value is Some
        },
{
    let c = cursor_of(s);
    assert(0 <= c < s.len() && s[c].selected);
    let ta = target_of(s[c].address, d);
    if in_grid(size, ta) {
        lemma_index_of_address(size, ta);
        let t = grid_index(size, ta);
        assert(s[t].address.0 == ta.0 && s[t].address.1 == ta.1);
        if t == c {
            assert(false);
        }
    }
}

/// A move attempt keeps the board's layout: one selected tile, which holds
/// 0, blocking tiles only in the header row, and every address where it was.
pub proof fn lemma_move_keeps_invariants(size: int, s: Seq<Tile>, d: BoardDirection)
    requires
        cells_wf(size, s),
    ensures
        cells_wf(size, after_move(size, s, d)),
        after_move(size, s, d).len() == s.len(),
        forall|i: int|
            0 <= i < s.len() ==> (#[trigger] after_move(size, s, d)[i]).address == s[i].address,
{
    lemma_move_target(size, s, d);
    if can_move(size, s, d) {
        let c = cursor_of(s);
        let t = grid_index(size, target_of(s[c].address, d));
        let n = after_move(size, s, d);
        assert(n[t].selected);
        assert forall|i: int| 0 <= i < n.len() && i != t implies !(#[trigger] n[i]).selected by {
            if i != c {
                assert(n[i] == s[i]);
            }
        }
    }
}

/// The cells of a new board are laid out as `cells_wf` asks, and arranged.
pub proof fn lemma_initial_layout(size: int, topleft: Point, s: Seq<Tile>)
    requires
        board_fits(size, topleft),
        s.len() == cell_count(size),
        forall|i: int| 0 <= i < s.len() ==> #[trigger] s[i] == initial_tile(size, topleft, i),
    ensures
        cells_wf(size, s),
        arranged(s),
{
    assert forall|i: int| 0 <= i < s.len() implies (#[trigger] s[i]).address.0 == i % size
        && s[i].address.1 == i / size by {
        lemma_address_of_index(size, i);
    }
    assert(s[0].selected);
    assert forall|i: int| 0 <= i <= s.len() implies #[trigger] defined_count(s.take(i)) == if i
        == 0 {
        0
    } else if i <= size {
        1
    } else {
        i - size + 1
    } by {
        lemma_initial_count(size, topleft, s, i);
    }
}

proof fn lemma_initial_count(size: int, topleft: Point, s: Seq<Tile>, i: int)
    requires
        board_fits(size, topleft),
        s.len() == cell_count(size),
        forall|j: int| 0 <= j < s.len() ==> #[trigger] s[j] == initial_tile(size, topleft, j),
        0 <= i <= s.len(),
    ensures
        defined_count(s.take(i)) == if i == 0 {
            0
        } else if i <= size {
            1
        } else {
            i - size + 1
        },
    decreases i,
{
    if i > 0 {
        lemma_initial_count(size, topleft, s, i - 1);
        assert(s.take(i).drop_last() =~= s.take(i - 1));
    }
}

/// Any series of move attempts keeps the board's layout: one selected tile,
/// which holds 0, and every address where it was.
pub proof fn lemma_moves_keep_invariants(size: int, s: Seq<Tile>, ds: Seq<BoardDirection>)
    requires
        cells_wf(size, s),
    ensures
        cells_wf(size, apply_moves(size, s, ds)),
        apply_moves(size, s, ds).len() == s.len(),
        forall|i: int|
            0 <= i < s.len() ==> (#[trigger] apply_moves(size, s, ds)[i]).address == s[i].address,
    decreases ds.len(),
{
    if ds.len() > 0 {
        lemma_moves_keep_invariants(size, s, ds.drop_last());
        lemma_move_keeps_invariants(size, apply_moves(size, s, ds.drop_last()), ds.last());
    }
}

/// Moving the cursor and then moving it back in the opposite direction
/// restores every tile's value and selection.
pub proof fn lemma_move_reversible(size: int, s: Seq<Tile>, d: BoardDirection)
    requires
        cells_wf(size, s),
        can_move(size, s, d),
    ensures
        can_move(size, after_move(size, s, d), opposite(d)),
        after_move(size, after_move(size, s, d), opposite(d)).len() == s.len(),
        forall|i: int|
            0 <= i < s.len() ==> {
                let back = #[trigger] after_move(size, after_move(size, s, d), opposite(d))[i];
                back.value == s[i].value && back.selected == s[i].selected
            },
{
    lemma_move_target(size, s, d);
    lemma_move_keeps_invariants(size, s, d);
    let c = cursor_of(s);
    let t = grid_index(size, target_of(s[c].address, d));
    let s1 = after_move(size, s, d);
    assert(s1[t].selected);
    let c1 = cursor_of(s1);
    assert(0 <= c1 < s1.len() && s1[c1].selected);
    assert(c1 == t);
    lemma_address_of_index(size, c);
    let back = target_of(s1[t].address, opposite(d));
    assert(back == (c % size, c / size));
    lemma_move_target(size, s1, opposite(d));
    let s2 = after_move(size, s1, opposite(d));
    assert(s2 == swap_tiles(s1, t, c));
}

/// Where two series of tiles hold values at the same places, they count as
/// many values in every prefix.
proof fn lemma_defined_count_same_shape(s: Seq<Tile>, n: Seq<Tile>, i: int)
    requires
        s.len() == n.len(),
        0 <= i <= s.len(),
        forall|j: int| 0 <= j < s.len() ==> ((#[trigger] s[j]).value is Some <==> n[j].value is Some),
    ensures
        defined_count(s.take(i)) == defined_count(n.take(i)),
    decreases i,
{
    if i > 0 {
        lemma_defined_count_same_shape(s, n, i - 1);
        assert(s.take(i).drop_last() =~= s.take(i - 1));
        assert(n.take(i).drop_last() =~= n.take(i - 1));
    }
}

/// A legal move out of the arranged layout leaves it unarranged.
pub proof fn lemma_move_unarranges(size: int, s: Seq<Tile>, d: BoardDirection)
    requires
        cells_wf(size, s),
        arranged(s),
        can_move(size, s, d),
    ensures
        !arranged(after_move(size, s, d)),
{
    lemma_move_target(size, s, d);
    let c = cursor_of(s);
    let n = after_move(size, s, d);
    assert forall|j: int| 0 <= j < s.len() implies ((#[trigger] s[j]).value is Some
        <==> n[j].value is Some) by {}
    lemma_defined_count_same_shape(s, n, c);
    assert(s[c].value is Some);
    assert(n[c].value is Some && n[c].value->0 != defined_count(n.take(c)));
}

impl Board {
    /// The board's layout holds: see `cells_wf`.
    pub open spec fn wf(&self) -> bool {
        &&& cells_wf(self.row as int, self.cells@)
        &&& self.col == self.row + 1
    }

    /// A new board of play size `size` drawn from `topleft`: the cursor,
    /// selected, at address (0, 0), blocking tiles in the rest of the header
    /// row, and the numbered tiles 1 to size * size row by row below it.
    pub fn new(size: i32, topleft: Point) -> (r: Board)
        requires
            board_fits(size as int, topleft),
        ensures
            r.wf(),
            r.row == size,
            r.col == size + 1,
            r.position == topleft,
            !r.show_help,
            forall|i: int|
                0 <= i < r.cells@.len() ==> #[trigger] r.cells@[i] == initial_tile(
                    size as int,
                    topleft,
                    i,
                ),
            arranged(r.cells@),
    {
        let ghost n = size as int;
        proof {
            if n > 46340 {
                assert(n * n >= 46341 * n) by (nonlinear_arith)
                    requires
                        n >= 46341,
                ;
            }
        }
        let mut cells: Vec<Tile> = Vec::new();
        let mut empty_tile = Tile::new(
            Some(0),
            topleft,
            (0, 0),
            None,
            Some(Rect::new(topleft.x, topleft.y, TILE_SIZE as u32, TILE_SIZE as u32)),
        );
        empty_tile.selected = true;
        cells.push(empty_tile);
        proof {
            lemma_address_of_index(n, 0);
        }
        assert(cells@[0] == initial_tile(n, topleft, 0));

        let mut i: i32 = 1;
        while i < size
            invariant
                board_fits(n, topleft),
                size == n,
                size <= 46340,
                1 <= i <= size,
                cells@.len() == i,
                forall|j: int| 0 <= j < i ==> #[trigger] cells@[j] == initial_tile(n, topleft, j),
            decreases size - i,
        {
            proof {
                lemma_fundamental_div_mod_converse(i as int, n, 0, i as int);
            }
            cells.push(
                Tile::new(
                    None,
                    Point::new((TILE_SIZE * i) + (TILE_SPACING * i) + topleft.x, topleft.y),
                    (i, 0),
                    None,
                    None,
                ),
            );
            i += 1;
        }

        let mut k: i32 = 0;
        while k < size * size
            invariant
                board_fits(n, topleft),
                size == n,
                size <= 46340,
                0 <= k <= size * size,
                cells@.len() == n + k,
                forall|j: int|
                    0 <= j < n + k ==> #[trigger] cells@[j] == initial_tile(n, topleft, j),
            decreases size * size - k,
        {
            let x = k % size;
            let y = (k / size) + 1;
            proof {
                lemma_fundamental_div_mod(k as int, n);
                lemma_mod_pos_bound(k as int, n);
                lemma_div_pos_is_pos(k as int, n);
                let ghost kk = k as int;
                assert(kk / n < n) by (nonlinear_arith)
                    requires
                        kk == n * (kk / n) + kk % n,
                        0 <= kk % n,
                        kk < n * n,
                        n >= 2,
                ;
                assert(n + kk == (kk / n + 1) * n + kk % n) by (nonlinear_arith)
                    requires
                        kk == n * (kk / n) + kk % n,
                ;
                lemma_fundamental_div_mod_converse(n + k, n, y as int, x as int);
            }
            cells.push(
                Tile::new(
                    Some(k + 1),
                    Point::new(
                        (TILE_SIZE * x) + (TILE_SPACING * x) + topleft.x,
                        (TILE_SIZE * y) + (TILE_SPACING * y) + topleft.y,
                    ),
                    (x, y),
                    Some(
                        Rect::new(
                            (TILE_SIZE * x) + (TILE_SPACING * x),
                            (TILE_SIZE * (y - 1)) + (TILE_SPACING * (y - 1)),
                            TILE_SIZE as u32,
                            TILE_SIZE as u32,
                        ),
                    ),
                    Some(
                        Rect::new(
                            (TILE_SIZE * x) + (TILE_SPACING * x) + topleft.x,
                            (TILE_SIZE * y) + (TILE_SPACING * y) + topleft.y,
                            TILE_SIZE as u32,
                            TILE_SIZE as u32,
                        ),
                    ),
                ),
            );
            k += 1;
        }
        let board = Board { row: size, col: size + 1, cells, position: topleft, show_help: false };
        proof {
            lemma_initial_layout(n, topleft, board.cells@);
        }
        board
    }

    /// The index of the first selected tile, if any.
    pub fn get_selected_tile(&self) -> (r: Option<usize>)
        ensures
            match r {
                Some(i) => i < self.cells@.len() && self.cells@[i as int].selected && forall|j: int|
                    0 <= j < i ==> !(#[trigger] self.cells@[j]).selected,
                None => forall|j: int|
                    0 <= j < self.cells@.len() ==> !(#[trigger] self.cells@[j]).selected,
            },
    {
        let mut index: usize = 0;
        while index < self.cells.len()
            invariant
                index <= self.cells@.len(),
                forall|j: int| 0 <= j < index ==> !(#[trigger] self.cells@[j]).selected,
            decreases self.cells@.len() - index,
        {
            if self.cells[index].selected {
                return Some(index);
            }
            index += 1;
        }
        None
    }

    /// The index of the first tile at `address`, if any.
    pub fn get_tile_at_address(&self, address: &(i32, i32)) -> (r: Option<usize>)
        ensures
            match r {
                Some(i) => i < self.cells@.len() && self.cells@[i as int].address == *address
                    && forall|j: int|
                    0 <= j < i ==> (#[trigger] self.cells@[j]).address != *address,
                None => forall|j: int|
                    0 <= j < self.cells@.len() ==> (#[trigger] self.cells@[j]).address != *address,
            },
    {
        let mut index: usize = 0;
        while index < self.cells.len()
            invariant
                index <= self.cells@.len(),
                forall|j: int| 0 <= j < index ==> (#[trigger] self.cells@[j]).address != *address,
            decreases self.cells@.len() - index,
        {
            let tile_address = self.cells[index].address;
            if tile_address.0 == address.0 && tile_address.1 == address.1 {
                return Some(index);
            }
            index += 1;
        }
        None
    }

    /// The index of the cursor and of its neighbour in direction `dir`, where
    /// that neighbour is on the grid.
    pub fn locate_move(&self, dir: BoardDirection) -> (r: Option<(usize, usize)>)
        requires
            self.wf(),
        ensures
            ({
                let size = self.row as int;
                let s = self.cells@;
                let ta = target_of(s[cursor_of(s)].address, dir);
                match r {
                    Some((c, t)) => in_grid(size, ta) && c == cursor_of(s) && t == grid_index(
                        size,
                        ta,
                    ) && t < s.len() && c < s.len(),
                    None => !in_grid(size, ta),
                }
            }),
    {
        let ghost size = self.row as int;
        let ghost s = self.cells@;
        proof {
            lemma_move_target(size, s, dir);
        }
        let selected_tile_index = match self.get_selected_tile() {
            Some(index) => index,
            None => return None,
        };
        assert(selected_tile_index == cursor_of(s));
        let (x, y) = self.cells[selected_tile_index].address;
        proof {
            lemma_address_of_index(size, selected_tile_index as int);
        }
        let target_address = match dir {
            BoardDirection::UP => (x, y - 1),
            BoardDirection::DOWN => (x, y + 1),
            BoardDirection::LEFT => (x - 1, y),
            BoardDirection::RIGHT => (x + 1, y),
        };
        let ghost ta = target_of(s[cursor_of(s)].address, dir);
        assert(target_address.0 == ta.0 && target_address.1 == ta.1);
        let target_tile_index = match self.get_tile_at_address(&target_address) {
            Some(index) => index,
            None => {
                proof {
                    if in_grid(size, ta) {
                        lemma_index_of_address(size, ta);
                        let g = grid_index(size, ta);
                        assert(s[g].address == target_address);
                    }
                }
                return None;
            },
        };
        proof {
            lemma_address_of_index(size, target_tile_index as int);
        }
        Some((selected_tile_index, target_tile_index))
    }

    /// Whether the cursor can move in direction `dir`.
    pub fn can_move_tile(&self, dir: BoardDirection) -> (r: bool)
        requires
            self.wf(),
        ensures
            r == can_move(self.row as int, self.cells@, dir),
    {
        match self.locate_move(dir) {
            Some((_, target_tile_index)) => self.cells[target_tile_index].value.is_some(),
            None => false,
        }
    }

    /// Moves the cursor one cell in direction `dir`: the cursor and the
    /// neighbour there exchange their contents. Returns `false`, and changes
    /// nothing, where that neighbour is off the grid or blocking.
    pub fn move_tile(&mut self, dir: BoardDirection) -> (r: bool)
        requires
            old(self).wf(),
        ensures
            final(self).wf(),
            r == can_move(old(self).row as int, old(self).cells@, dir),
            final(self).cells@ == after_move(old(self).row as int, old(self).cells@, dir),
            forall|i: int|
                0 <= i < old(self).cells@.len() ==> (#[trigger] final(self).cells@[i]).address
                    == old(self).cells@[i].address,
            final(self).row == old(self).row,
            final(self).col == old(self).col,
            final(self).position == old(self).position,
            final(self).show_help == old(self).show_help,
    {
        let ghost size = self.row as int;
        let ghost s = self.cells@;
        proof {
            lemma_move_target(size, s, dir);
            lemma_move_keeps_invariants(size, s, dir);
        }
        let (selected_tile_index, target_tile_index) = match self.locate_move(dir) {
            Some(pair) => pair,
            None => return false,
        };
        let mut cursor = self.cells[selected_tile_index];
        let mut target = self.cells[target_tile_index];
        let moved = cursor.swap_value(&mut target);
        if moved {
            self.cells.set(selected_tile_index, cursor);
            self.cells.set(target_tile_index, target);
            assert(self.cells@ =~= after_move(size, s, dir));
        }
        moved
    }

    /// Whether the values that the tiles hold, read in order, are 0, 1, 2, ...
    pub fn check_arranged(&self) -> (r: bool)
        ensures
            r == arranged(self.cells@),
    {
        let ghost s = self.cells@;
        let mut count: usize = 0;
        let mut index: usize = 0;
        while index < self.cells.len()
            invariant
                s == self.cells@,
                index <= s.len(),
                count == defined_count(s.take(index as int)),
                count <= index,
                forall|j: int|
                    0 <= j < index && (#[trigger] s[j]).value is Some ==> s[j].value->0
                        == defined_count(s.take(j)),
            decreases s.len() - index,
        {
            assert(s.take(index + 1).drop_last() =~= s.take(index as int));
            if let Some(value) = self.cells[index].value {
                if value < 0 || count != value as usize {
                    return false;
                }
                count += 1;
            }
            index += 1;
        }
        assert(s.take(s.len() as int) =~= s);
        true
    }
}

} // verus!
