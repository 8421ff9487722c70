//! The board engine: a 7x6 grid filled column by column from the bottom,
//! and the scan for four equal markers in a line.
//!
//! A board is modelled as a grid `Seq<Seq<u8>>`, indexed first by column and
//! then by row. Row `0` is the top row and row `ROWS - 1` the bottom row;
//! the value `0` stands for an empty cell.

use vstd::prelude::*;

verus! {

/// A seat in one game: `1` up to `NUMBER_OF_PLAYERS`.
pub type Player = u8;

/// The index of a column, counted from `0`.
pub type Column = u8;

/// The cells of a board, by column and then by row.
pub type Board = [[Player; ROWS]; COLUMNS];

/// Width of the board.
pub const COLUMNS: usize = 7;

/// Height of the board.
pub const ROWS: usize = 6;

/// The number of seats in one game.
pub const NUMBER_OF_PLAYERS: u8 = 2;

/// Why a marker could not be dropped.
#[derive(Clone, Copy, Debug, PartialEq, Eq, Structural)]
pub enum MoveError {
    /// The column index lies outside the board.
    InvalidColumn,
    /// The top cell of the column is already occupied.
    ColumnFull,
}

/// The grid that a value of `Board` stands for.
pub open spec fn grid_of(board: Board) -> Seq<Seq<u8>> {
    Seq::new(COLUMNS as nat, |x: int| board[x]@)
}

/// A grid of the board's dimensions.
pub open spec fn well_shaped(grid: Seq<Seq<u8>>) -> bool {
    &&& grid.len() == COLUMNS
    &&& forall|x: int| 0 <= x < COLUMNS ==> (#[trigger] grid[x]).len() == ROWS
}

/// The grid with every cell empty.
pub open spec fn empty_grid() -> Seq<Seq<u8>> {
    Seq::new(COLUMNS as nat, |x: int| Seq::new(ROWS as nat, |y: int| 0u8))
}

/// The lowest empty row of `column` at or above row `from`, or `-1` when
/// every such row is occupied.
pub open spec fn lowest_empty(column: Seq<u8>, from: int) -> int
    decreases from + 1,
{
    if from < 0 {
        -1
    } else if column[from] == 0 {
        from
    } else {
        lowest_empty(column, from - 1)
    }
}

/// The row in which a marker dropped into `column` comes to rest.
pub open spec fn landing_row(column: Seq<u8>) -> int {
    lowest_empty(column, ROWS - 1)
}

/// The grid with the cell in column `x`, row `y` set to `player`.
pub open spec fn place(grid: Seq<Seq<u8>>, x: int, y: int, player: u8) -> Seq<Seq<u8>> {
    grid.update(x, grid[x].update(y, player))
}

/// What dropping `player` into `column` does to a grid: the new grid, or
/// the reason why the grid stays as it is.
pub open spec fn drop_piece(grid: Seq<Seq<u8>>, column: int, player: u8) -> Result<
    Seq<Seq<u8>>,
    MoveError,
> {
    if !(0 <= column < COLUMNS) {
        Err(MoveError::InvalidColumn)
    } else if grid[column][0] != 0 {
        Err(MoveError::ColumnFull)
    } else {
        Ok(place(grid, column, landing_row(grid[column]), player))
    }
}

/// The number of occupied cells of a column.
pub open spec fn pieces(column: Seq<u8>) -> nat
    decreases column.len(),
{
    if column.len() == 0 {
        0
    } else {
        pieces(column.drop_last()) + if column.last() != 0 {
            1nat
        } else {
            0nat
        }
    }
}

/// Gravity in one column: below an occupied cell no cell is empty.
pub open spec fn settled_column(column: Seq<u8>) -> bool {
    forall|i: int, j: int| 0 <= i < j < column.len() && column[i] != 0 ==> column[j] != 0
}

/// Gravity on the whole grid: every column is filled from the bottom up.
pub open spec fn settled(grid: Seq<Seq<u8>>) -> bool {
    forall|x: int| 0 <= x < grid.len() ==> settled_column(#[trigger] grid[x])
}

/// The grid after a sequence of drops, each given as column and player,
/// made one after the other on `grid`. A drop that is refused leaves the
/// grid as it is.
pub open spec fn drop_all(grid: Seq<Seq<u8>>, moves: Seq<(Column, Player)>) -> Seq<Seq<u8>>
    decreases moves.len(),
{
    if moves.len() == 0 {
        grid
    } else {
        let before = drop_all(grid, moves.drop_last());
        match drop_piece(before, moves.last().0 as int, moves.last().1) {
            Ok(after) => after,
            Err(_) => before,
        }
    }
}

/// Whether the cell in column `x`, row `y` lies on the board and holds
/// `player`'s marker.
pub open spec fn holds(grid: Seq<Seq<u8>>, player: u8, x: int, y: int) -> bool {
    &&& 0 <= x < COLUMNS
    &&& 0 <= y < ROWS
    &&& grid[x][y] == player
}

/// Whether the four cells that start in column `x`, row `y` and go on in
/// steps of `dx` columns and `dy` rows all hold `player`'s marker.
pub open spec fn four_in_line(
    grid: Seq<Seq<u8>>,
    player: u8,
    x: int,
    y: int,
    dx: int,
    dy: int,
) -> bool {
    &&& holds(grid, player, x, y)
    &&& holds(grid, player, x + dx, y + dy)
    &&& holds(grid, player, x + 2 * dx, y + 2 * dy)
    &&& holds(grid, player, x + 3 * dx, y + 3 * dy)
}

/// Whether a line of four of `player`'s markers starts in column `x`, row
/// `y` and runs to the right, downwards, or along one of the two diagonals.
pub open spec fn four_from(grid: Seq<Seq<u8>>, player: u8, x: int, y: int) -> bool {
    ||| four_in_line(grid, player, x, y, 1, 0)
    ||| four_in_line(grid, player, x, y, 0, 1)
    ||| four_in_line(grid, player, x, y, 1, 1)
    ||| four_in_line(grid, player, x, y, 1, -1)
}

/// Whether `player`'s marker occupies four cells in a row anywhere on the
/// grid: horizontally, vertically or diagonally.
pub open spec fn has_four(grid: Seq<Seq<u8>>, player: u8) -> bool {
    exists|x: int, y: int| four_from(grid, player, x, y)
}

/// The lowest marker from `from` up to `NUMBER_OF_PLAYERS` that has four in
/// a row, if there is one.
pub open spec fn first_winner(grid: Seq<Seq<u8>>, from: int) -> Option<u8>
    decreases NUMBER_OF_PLAYERS + 1 - from,
{
    if from < 1 || from > NUMBER_OF_PLAYERS {
        None
    } else if has_four(grid, from as u8) {
        Some(from as u8)
    } else {
        first_winner(grid, from + 1)
    }
}

/// The winner that a grid shows: the lowest player marker with four in a
/// row, or `None` while no player has one.
pub open spec fn winner_of(grid: Seq<Seq<u8>>) -> Option<u8> {
    first_winner(grid, 1)
}

/// Whether a column is filled from the bottom up.
fn column_settled(column: &[Player; ROWS]) -> (ok: bool)
    ensures
        ok == settled_column(column@),
{
    let mut y: usize = 1;
    while y < ROWS
        invariant
            1 <= y <= ROWS,
            forall|i: int, j: int| 0 <= i < j < y && column@[i] != 0 ==> column@[j] != 0,
        decreases ROWS - y,
    {
        if column[y - 1] != 0 && column[y] == 0 {
            return false;
        }
        assert forall|i: int, j: int| 0 <= i < j < y + 1 && column@[i] != 0 implies column@[j]
            != 0 by {
            if j == y && i < y - 1 {
                assert(column@[y - 1] != 0);
            }
        }
        y = y + 1;
    }
    true
}

/// The game with a board.
pub struct Game {
    cells: Board,
}

impl View for Game {
    type V = Seq<Seq<u8>>;

    closed spec fn view(&self) -> Seq<Seq<u8>> {
        grid_of(self.cells)
    }
}

impl Game {
    /// The board's standing invariant: it has the board's dimensions and
    /// every column is filled from the bottom up.
    pub open spec fn wf(&self) -> bool {
        &&& well_shaped(self@)
        &&& settled(self@)
    }

    /// An empty board.
    pub fn new() -> (game: Self)
        ensures
            game@ == empty_grid(),
            game.wf(),
    {
        let game = Game { cells: [[0u8; 6]; 7] };
        proof {
            assert(game@ =~~= empty_grid());
            lemma_empty_grid();
        }
        game
    }

    /// The game on `board`, if `board` obeys gravity: a board with an empty
    /// cell below an occupied one is no position of the game.
    pub fn from_board(board: Board) -> (game: Option<Self>)
        ensures
            game is Some <==> settled(grid_of(board)),
            game matches Some(g) ==> g@ == grid_of(board) && g.wf(),
    {
        let mut x: usize = 0;
        while x < COLUMNS
            invariant
                x <= COLUMNS,
                forall|i: int| 0 <= i < x ==> settled_column(#[trigger] grid_of(board)[i]),
            decreases COLUMNS - x,
        {
            if !column_settled(&board[x]) {
                assert(!settled_column(grid_of(board)[x as int]));
                return None;
            }
            x = x + 1;
        }
        Some(Game { cells: board })
    }

    /// Number of players for this game.
    pub fn number_of_players() -> (n: u8)
        ensures
            n == NUMBER_OF_PLAYERS,
    {
        NUMBER_OF_PLAYERS
    }

    /// The cells of the board as they stand.
    pub fn board(&self) -> (board: Board)
        ensures
            grid_of(board) == self@,
    {
        self.cells
    }

    /// Whether the cell in column `x`, row `y` is on the board and holds
    /// `player`'s marker.
    fn holds_at(&self, player: Player, x: usize, y: usize) -> (found: bool)
        ensures
            found == holds(self@, player, x as int, y as int),
    {
        x < COLUMNS && y < ROWS && self.cells[x][y] == player
    }

    /// Whether a line of four of `player`'s markers starts in column `x`,
    /// row `y`.
    fn four_from_at(&self, player: Player, x: usize, y: usize) -> (found: bool)
        requires
            x < COLUMNS,
            y < ROWS,
        ensures
            found == four_from(self@, player, x as int, y as int),
    {
        if !self.holds_at(player, x, y) {
            return false;
        }
        let right = self.holds_at(player, x + 1, y) && self.holds_at(player, x + 2, y)
            && self.holds_at(player, x + 3, y);
        let down = self.holds_at(player, x, y + 1) && self.holds_at(player, x, y + 2)
            && self.holds_at(player, x, y + 3);
        let down_right = self.holds_at(player, x + 1, y + 1) && self.holds_at(player, x + 2, y + 2)
            && self.holds_at(player, x + 3, y + 3);
        let up_right = y >= 3 && self.holds_at(player, x + 1, y - 1) && self.holds_at(
            player,
            x + 2,
            y - 2,
        ) && self.holds_at(player, x + 3, y - 3);
        right || down || down_right || up_right
    }

    /// Scans the whole board for four of `player`'s markers in a row.
    fn player_finished(&self, player: Player) -> (found: bool)
        ensures
            found == has_four(self@, player),
    {
        let mut x: usize = 0;
        while x < COLUMNS
            invariant
                x <= COLUMNS,
                forall|i: int, j: int| 0 <= i < x ==> !four_from(self@, player, i, j),
            decreases COLUMNS - x,
        {
            let mut y: usize = 0;
            while y < ROWS
                invariant
                    x < COLUMNS,
                    y <= ROWS,
                    forall|i: int, j: int| 0 <= i < x ==> !four_from(self@, player, i, j),
                    forall|j: int| 0 <= j < y ==> !four_from(self@, player, x as int, j),
                decreases ROWS - y,
            {
                if self.four_from_at(player, x, y) {
                    return true;
                }
                y = y + 1;
            }
            x = x + 1;
        }
        false
    }

    /// Is the game finished, if so return the winner: the lowest player
    /// marker that occupies four cells in a row. The whole board is scanned
    /// anew at each call and left as it is, so that a second call gives the
    /// same answer.
    pub fn is_finished(&self) -> (winner: Option<Player>)
        ensures
            winner == winner_of(self@),
    {
        let mut player: Player = 1;
        while player <= NUMBER_OF_PLAYERS
            invariant
                1 <= player <= NUMBER_OF_PLAYERS + 1,
                first_winner(self@, player as int) == winner_of(self@),
            decreases NUMBER_OF_PLAYERS + 1 - player,
        {
            if self.player_finished(player) {
                return Some(player);
            }
            player = player + 1;
        }
        None
    }

    /// Drops `player`'s marker into column `turn`. The marker comes to rest
    /// in the lowest empty cell of the column and the new board is handed
    /// back. A column outside the board, or one whose top cell is occupied,
    /// is refused and the board stays as it was. Whose turn it is, is not
    /// the board's concern: it takes any marker, and with the marker `0`
    /// the cell stays empty.
    pub fn play_turn(&mut self, turn: Column, player: Player) -> (result: Result<Board, MoveError>)
        ensures
            match result {
                Ok(board) => drop_piece(old(self)@, turn as int, player) == Ok::<
                    Seq<Seq<u8>>,
                    MoveError,
                >(final(self)@) && grid_of(board) == final(self)@,
                Err(e) => drop_piece(old(self)@, turn as int, player) == Err::<
                    Seq<Seq<u8>>,
                    MoveError,
                >(e) && final(self)@ == old(self)@,
            },
            well_shaped(final(self)@),
            old(self).wf() ==> final(self).wf(),
    {
        if turn as usize >= COLUMNS {
            return Err(MoveError::InvalidColumn);
        }
        let x: usize = turn as usize;
        if self.cells[x][0] > 0 {
            return Err(MoveError::ColumnFull);
        }
        let mut y: usize = ROWS - 1;
        while self.cells[x][y] > 0
            invariant
                x < COLUMNS,
                y < ROWS,
                self.cells == old(self).cells,
                self.cells[x as int][0] == 0,
                lowest_empty(self.cells[x as int]@, y as int) == landing_row(
                    self.cells[x as int]@,
                ),
            decreases y,
        {
            y = y - 1;
        }
        self.cells[x][y] = player;
        proof {
            assert(self@ =~~= place(old(self)@, x as int, y as int, player));
            if old(self).wf() {
                lemma_drop_piece(old(self)@, turn as int, player);
            }
        }
        Ok(self.cells)
    }
}

impl Default for Game {
    /// An empty board.
    fn default() -> (game: Self)
        ensures
            game@ == empty_grid(),
            game.wf(),
    {
        Game::new()
    }
}

impl Clone for Game {
    /// A copy of the board.
    fn clone(&self) -> (copy: Self)
        ensures
            copy@ == self@,
    {
        Game { cells: self.cells }
    }
}

/// `lowest_empty` finds an empty row with nothing but occupied rows between
/// it and `from`, or finds every row up to `from` occupied.
proof fn lemma_lowest_empty(column: Seq<u8>, from: int)
    requires
        -1 <= from < column.len(),
    ensures
        -1 <= lowest_empty(column, from) <= from,
        lowest_empty(column, from) >= 0 ==> column[lowest_empty(column, from)] == 0,
        forall|y: int| lowest_empty(column, from) < y <= from ==> column[y] != 0,
    decreases from + 1,
{
    if from >= 0 && column[from] != 0 {
        lemma_lowest_empty(column, from - 1);
    }
}

/// Where the top cell of a column is empty, the landing row is the lowest
/// empty cell: it is empty, and every cell below it is occupied.
pub proof fn lemma_landing_row(column: Seq<u8>)
    requires
        column.len() == ROWS,
        column[0] == 0,
    ensures
        0 <= landing_row(column) < ROWS,
        column[landing_row(column)] == 0,
        forall|y: int| landing_row(column) < y < ROWS ==> column[y] != 0,
{
    lemma_lowest_empty(column, ROWS - 1);
    if landing_row(column) < 0 {
        assert(column[0] != 0);
    }
}

/// A column holds no more pieces than it has cells, and as many exactly
/// when every cell is occupied.
proof fn lemma_pieces_bound(column: Seq<u8>)
    ensures
        pieces(column) <= column.len(),
        pieces(column) == column.len() <==> forall|y: int|
            0 <= y < column.len() ==> column[y] != 0,
    decreases column.len(),
{
    if column.len() > 0 {
        let rest = column.drop_last();
        lemma_pieces_bound(rest);
        if pieces(column) == column.len() {
            assert forall|y: int| 0 <= y < column.len() implies column[y] != 0 by {
                if y < rest.len() {
                    assert(rest[y] != 0);
                }
            }
        }
        if forall|y: int| 0 <= y < column.len() ==> column[y] != 0 {
            assert forall|y: int| 0 <= y < rest.len() implies rest[y] != 0 by {
                assert(column[y] != 0);
            }
        }
    }
}

/// Filling an empty cell with a marker adds one piece to the column.
proof fn lemma_pieces_update(column: Seq<u8>, row: int, player: u8)
    requires
        0 <= row < column.len(),
        column[row] == 0,
        player != 0,
    ensures
        pieces(column.update(row, player)) == pieces(column) + 1,
    decreases column.len(),
{
    let filled = column.update(row, player);
    if row == column.len() - 1 {
        assert(filled.drop_last() =~= column.drop_last());
    } else {
        assert(filled.drop_last() =~= column.drop_last().update(row, player));
        lemma_pieces_update(column.drop_last(), row, player);
    }
}

/// On a grid that obeys gravity a column is full, that is, holds `ROWS`
/// pieces, exactly when its top cell is occupied; and it never holds more.
pub proof fn lemma_full_column(grid: Seq<Seq<u8>>, column: int)
    requires
        well_shaped(grid),
        settled(grid),
        0 <= column < COLUMNS,
    ensures
        pieces(grid[column]) <= ROWS,
        pieces(grid[column]) == ROWS <==> grid[column][0] != 0,
{
    let cells = grid[column];
    lemma_pieces_bound(cells);
    assert(settled_column(cells));
    if cells[0] != 0 {
        assert forall|y: int| 0 <= y < cells.len() implies cells[y] != 0 by {
            if y > 0 {
                assert(cells[0] != 0);
            }
        }
    }
}

/// A drop into a full column is refused with `ColumnFull`, whoever makes
/// it, and a drop that is refused for this reason met a full column.
pub proof fn lemma_full_column_is_refused(grid: Seq<Seq<u8>>, column: int, player: u8)
    requires
        well_shaped(grid),
        settled(grid),
        0 <= column < COLUMNS,
    ensures
        pieces(grid[column]) == ROWS <==> drop_piece(grid, column, player) == Err::<
            Seq<Seq<u8>>,
            MoveError,
        >(MoveError::ColumnFull),
{
    lemma_full_column(grid, column);
}

/// A drop that is accepted keeps the shape of the grid and gravity, leaves
/// the other columns alone and, for a marker other than `0`, puts one more
/// piece into its column: the marker lies in what was the lowest empty
/// cell, on top of the pieces that were there.
pub proof fn lemma_drop_piece(grid: Seq<Seq<u8>>, column: int, player: u8)
    requires
        well_shaped(grid),
        settled(grid),
        drop_piece(grid, column, player) is Ok,
    ensures
        well_shaped(drop_piece(grid, column, player)->Ok_0),
        settled(drop_piece(grid, column, player)->Ok_0),
        forall|x: int|
            0 <= x < COLUMNS && x != column ==> drop_piece(grid, column, player)->Ok_0[x]
                == grid[x],
        player != 0 ==> pieces(drop_piece(grid, column, player)->Ok_0[column]) == pieces(
            grid[column],
        ) + 1,
        landing_row(grid[column]) == ROWS - 1 - pieces(grid[column]),
        drop_piece(grid, column, player)->Ok_0[column][landing_row(grid[column])] == player,
{
    let cells = grid[column];
    let row = landing_row(cells);
    let after = drop_piece(grid, column, player)->Ok_0;
    lemma_landing_row(cells);
    assert(settled_column(cells));
    assert(well_shaped(after));
    assert forall|x: int| 0 <= x < after.len() implies settled_column(#[trigger] after[x]) by {
        if x == column {
            let filled = after[x];
            assert forall|i: int, j: int|
                0 <= i < j < filled.len() && filled[i] != 0 implies filled[j] != 0 by {
                if i != row {
                    assert(cells[i] != 0);
                    assert(cells[j] != 0);
                }
            }
        } else {
            assert(after[x] == grid[x]);
        }
    }
    lemma_pieces_below(cells, row);
    if player != 0 {
        lemma_pieces_update(cells, row, player);
    }
}

/// In a column that obeys gravity the pieces are the cells below the
/// lowest empty one.
proof fn lemma_pieces_below(column: Seq<u8>, row: int)
    requires
        0 <= row < column.len(),
        column[row] == 0,
        settled_column(column),
        forall|y: int| row < y < column.len() ==> column[y] != 0,
    ensures
        pieces(column) == column.len() - 1 - row,
    decreases column.len(),
{
    let rest = column.drop_last();
    if row == column.len() - 1 {
        assert forall|y: int| 0 <= y < rest.len() implies rest[y] == 0 by {
            if column[y] != 0 {
                assert(column[row] != 0);
            }
        }
        lemma_pieces_none(rest);
    } else {
        assert(column.last() != 0);
        assert(settled_column(rest)) by {
            assert forall|i: int, j: int|
                0 <= i < j < rest.len() && rest[i] != 0 implies rest[j] != 0 by {
                assert(column[i] != 0);
                assert(column[j] != 0);
            }
        }
        assert forall|y: int| row < y < rest.len() implies rest[y] != 0 by {
            assert(column[y] != 0);
        }
        lemma_pieces_below(rest, row);
    }
}

/// A column of empty cells holds no piece.
proof fn lemma_pieces_none(column: Seq<u8>)
    requires
        forall|y: int| 0 <= y < column.len() ==> column[y] == 0,
    ensures
        pieces(column) == 0,
    decreases column.len(),
{
    if column.len() > 0 {
        let rest = column.drop_last();
        assert forall|y: int| 0 <= y < rest.len() implies rest[y] == 0 by {
            assert(column[y] == 0);
        }
        lemma_pieces_none(rest);
    }
}

/// A drop gives no line of four to a marker other than the one dropped:
/// whoever has four in a row after it, and did not move, had them before.
pub proof fn lemma_drop_favours_mover(grid: Seq<Seq<u8>>, column: int, player: u8, other: u8)
    requires
        well_shaped(grid),
        drop_piece(grid, column, player) is Ok,
        other != player,
        has_four(drop_piece(grid, column, player)->Ok_0, other),
    ensures
        has_four(grid, other),
{
    let after = drop_piece(grid, column, player)->Ok_0;
    let row = landing_row(grid[column]);
    lemma_landing_row(grid[column]);
    assert forall|x: int, y: int| holds(after, other, x, y) implies holds(grid, other, x, y) by {
        if x == column && y == row {
            assert(after[x][y] == player);
        }
    }
    let (x, y) = choose|x: int, y: int| four_from(after, other, x, y);
    assert(four_from(grid, other, x, y));
}

/// The empty grid has the shape of the board, obeys gravity and shows no
/// winner.
pub proof fn lemma_empty_grid()
    ensures
        well_shaped(empty_grid()),
        settled(empty_grid()),
        forall|x: int| 0 <= x < COLUMNS ==> pieces(#[trigger] empty_grid()[x]) == 0,
        winner_of(empty_grid()) is None,
{
    assert forall|x: int| 0 <= x < COLUMNS implies pieces(#[trigger] empty_grid()[x]) == 0 by {
        lemma_pieces_none(empty_grid()[x]);
    }
    lemma_winner_of(empty_grid());
}

/// Whatever drops are made on an empty board, one after the other, the
/// board keeps its shape and obeys gravity, and no column ever holds more
/// pieces than the board is high.
pub proof fn lemma_drops_stay_within_height(moves: Seq<(Column, Player)>)
    ensures
        well_shaped(drop_all(empty_grid(), moves)),
        settled(drop_all(empty_grid(), moves)),
        forall|x: int|
            0 <= x < COLUMNS ==> pieces(#[trigger] drop_all(empty_grid(), moves)[x]) <= ROWS,
    decreases moves.len(),
{
    lemma_empty_grid();
    if moves.len() > 0 {
        let before = drop_all(empty_grid(), moves.drop_last());
        lemma_drops_stay_within_height(moves.drop_last());
        if drop_piece(before, moves.last().0 as int, moves.last().1) is Ok {
            lemma_drop_piece(before, moves.last().0 as int, moves.last().1);
        }
    }
    let grid = drop_all(empty_grid(), moves);
    assert forall|x: int| 0 <= x < COLUMNS implies pieces(#[trigger] grid[x]) <= ROWS by {
        lemma_full_column(grid, x);
    }
}

/// What `first_winner` finds: a marker in range with four in a row and no
/// lower marker from `from` on with four in a row; or that there is none.
proof fn lemma_first_winner(grid: Seq<Seq<u8>>, from: int)
    requires
        1 <= from <= NUMBER_OF_PLAYERS + 1,
    ensures
        match first_winner(grid, from) {
            Some(player) => {
                &&& from <= player <= NUMBER_OF_PLAYERS
                &&& has_four(grid, player)
                &&& forall|other: u8| from <= other < player ==> !has_four(grid, other)
            },
            None => forall|other: u8| from <= other <= NUMBER_OF_PLAYERS ==> !has_four(grid, other),
        },
    decreases NUMBER_OF_PLAYERS + 1 - from,
{
    if from <= NUMBER_OF_PLAYERS && !has_four(grid, from as u8) {
        lemma_first_winner(grid, from + 1);
    }
}

/// A grid shows a winner if and only if some player's marker occupies four
/// cells in a row, horizontally, vertically or diagonally; the winner shown
/// is the lowest such marker.
pub proof fn lemma_winner_of(grid: Seq<Seq<u8>>)
    ensures
        winner_of(grid) is Some <==> exists|player: u8|
            1 <= player <= NUMBER_OF_PLAYERS && has_four(grid, player),
        match winner_of(grid) {
            Some(player) => {
                &&& 1 <= player <= NUMBER_OF_PLAYERS
                &&& has_four(grid, player)
                &&& forall|other: u8| 1 <= other < player ==> !has_four(grid, other)
            },
            None => forall|other: u8| 1 <= other <= NUMBER_OF_PLAYERS ==> !has_four(grid, other),
        },
{
    lemma_first_winner(grid, 1);
}

/// Two scans of one grid give the same answer.
pub proof fn lemma_scan_repeats(grid: Seq<Seq<u8>>, first: Option<u8>, second: Option<u8>)
    requires
        first == winner_of(grid),
        second == winner_of(grid),
    ensures
        first == second,
{
}

} // verus!
