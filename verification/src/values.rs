//! The board of one player: a ten by ten grid of cells and a fleet of five
//! ships, with placement during setup and the resolution of shots.

use vstd::prelude::*;
use vstd::string::*;

verus! {

/// The number of rows, and of columns, of a board.
pub const BOARD_SIZE: usize = 10;

/// The number of cells of a board.
pub const BOARD_CELLS: usize = 100;

/// The kinds of ship. A fleet holds one ship of each.
#[derive(Clone, Copy, PartialEq, Eq, Debug, Hash, Structural)]
pub enum ShipType {
    /// Five cells long.
    Carrier,
    /// Four cells long.
    BattleShip,
    /// Three cells long.
    Cruiser,
    /// Three cells long.
    Sub,
    /// Two cells long.
    Destroyer,
}

impl ShipType {
    /// The number of cells that a ship of this kind covers.
    pub open spec fn spec_length(self) -> nat {
        match self {
            ShipType::Carrier => 5,
            ShipType::BattleShip => 4,
            ShipType::Cruiser => 3,
            ShipType::Sub => 3,
            ShipType::Destroyer => 2,
        }
    }

    /// The number of cells that a ship of this kind covers.
    pub fn length(self) -> (n: usize)
        ensures
            n == self.spec_length(),
    {
        match self {
            ShipType::Carrier => 5,
            ShipType::BattleShip => 4,
            ShipType::Cruiser => 3,
            ShipType::Sub => 3,
            ShipType::Destroyer => 2,
        }
    }

    /// The place of this kind in a fleet.
    pub open spec fn spec_index(self) -> int {
        match self {
            ShipType::Carrier => 0,
            ShipType::BattleShip => 1,
            ShipType::Cruiser => 2,
            ShipType::Sub => 3,
            ShipType::Destroyer => 4,
        }
    }

    /// The place of this kind in a fleet.
    pub fn index(self) -> (i: usize)
        ensures
            i == self.spec_index(),
    {
        match self {
            ShipType::Carrier => 0,
            ShipType::BattleShip => 1,
            ShipType::Cruiser => 2,
            ShipType::Sub => 3,
            ShipType::Destroyer => 4,
        }
    }
}

/// The state of one cell of a board.
///
/// A cell goes from `Empty` to `Ship` by placement, from `Ship` to `Hit` and
/// from `Empty` to `Miss` by a shot, and never leaves `Hit` or `Miss`.
#[derive(Clone, Copy, PartialEq, Eq, Debug, Structural)]
pub enum CellState {
    /// Nothing is here and nobody has shot here.
    Empty,
    /// A part of a ship that has not been hit.
    Ship(ShipType),
    /// A part of a ship that has been hit.
    Hit,
    /// A shot that met nothing.
    Miss,
}

impl CellState {
    /// The name of the state, without the kind of ship.
    pub fn to_string(&self) -> (s: String)
        ensures
            s@ == match *self {
                CellState::Empty => "Empty"@,
                CellState::Ship(_) => "Ship"@,
                CellState::Hit => "Hit"@,
                CellState::Miss => "Miss"@,
            },
    {
        match self {
            CellState::Empty => "Empty".to_owned(),
            CellState::Ship(_) => "Ship".to_owned(),
            CellState::Hit => "Hit".to_owned(),
            CellState::Miss => "Miss".to_owned(),
        }
    }
}

/// One ship of a fleet.
#[derive(Clone, Copy, PartialEq, Eq, Debug, Structural)]
pub struct Ship {
    /// The kind of the ship.
    pub ship_type: ShipType,
    /// How many of its cells have been hit.
    pub hits: usize,
    /// Whether it stands on the grid.
    pub placed: bool,
}

/// What a shot did.
#[derive(Clone, Copy, PartialEq, Eq, Debug, Structural)]
pub enum Outcome {
    /// The shot hit a ship of the given kind; the flag says whether that
    /// sank it.
    Hit(ShipType, bool),
    /// The shot met an empty cell.
    Miss,
    /// The cell had been shot at before.
    AlreadyTaken,
}

/// Why a ship could not be placed.
#[derive(Clone, Copy, PartialEq, Eq, Debug, Structural)]
pub enum PlacementError {
    /// A cell lies off the grid.
    OutOfBounds,
    /// A cell is not empty, or is named twice.
    Overlap,
    /// The number of cells is not the length of the kind.
    WrongLength,
    /// The board already holds its ship of this kind.
    AlreadyPlaced,
}

// ---------------------------------------------------------------------------
// The model
// ---------------------------------------------------------------------------

/// A ship as a mathematical value.
pub ghost struct ShipView {
    pub hits: nat,
    pub placed: bool,
}

/// A board as a mathematical value.
pub ghost struct BoardView {
    /// The rows of the grid.
    pub grid: Seq<Seq<CellState>>,
    /// The fleet, by kind.
    pub fleet: Map<ShipType, ShipView>,
    /// The owner's name.
    pub name: Seq<u8>,
    /// The counter of ships that have not been sunk.
    pub remaining: nat,
}

/// Whether `grid` has ten rows of ten cells.
pub open spec fn grid_shape(grid: Seq<Seq<CellState>>) -> bool {
    &&& grid.len() == BOARD_SIZE
    &&& forall|r: int| 0 <= r < BOARD_SIZE ==> (#[trigger] grid[r]).len() == BOARD_SIZE
}

/// Among the first `n` cells of `grid`, row by row, the number that hold an
/// unhit part of the ship of the given kind.
pub open spec fn count_cells(grid: Seq<Seq<CellState>>, kind: ShipType, n: nat) -> nat
    decreases n,
{
    if n == 0 {
        0
    } else {
        let i = n - 1;
        let here: nat = if grid[i / 10][i % 10] == CellState::Ship(kind) {
            1
        } else {
            0
        };
        count_cells(grid, kind, i as nat) + here
    }
}

/// Whether a cell has been shot at.
pub open spec fn is_taken(state: CellState) -> bool {
    state is Hit || state is Miss
}

/// Among the first `n` cells of `grid`, row by row, the number that have
/// been shot at.
pub open spec fn count_taken(grid: Seq<Seq<CellState>>, n: nat) -> nat
    decreases n,
{
    if n == 0 {
        0
    } else {
        let i = n - 1;
        let here: nat = if is_taken(grid[i / 10][i % 10]) {
            1
        } else {
            0
        };
        count_taken(grid, i as nat) + here
    }
}

/// Whether `cells` names the cell at `row` and `col`.
pub open spec fn covers(cells: Seq<(usize, usize)>, row: int, col: int) -> bool {
    exists|i: int| 0 <= i < cells.len() && (#[trigger] cells[i]).0 == row && cells[i].1 == col
}

/// The grid with an unhit part of the ship of the given kind on each of
/// `cells`.
pub open spec fn overlay(
    grid: Seq<Seq<CellState>>,
    kind: ShipType,
    cells: Seq<(usize, usize)>,
) -> Seq<Seq<CellState>> {
    Seq::new(
        10,
        |r: int|
            Seq::new(
                10,
                |c: int|
                    if covers(cells, r, c) {
                        CellState::Ship(kind)
                    } else {
                        grid[r][c]
                    },
            ),
    )
}

/// Whether a coordinate lies on the grid.
pub open spec fn in_bounds(cell: (usize, usize)) -> bool {
    cell.0 < BOARD_SIZE && cell.1 < BOARD_SIZE
}

impl BoardView {
    /// The board that a player starts from: every cell empty, no ship
    /// placed or hit, and all five ships counted as afloat.
    pub open spec fn fresh(name: Seq<u8>) -> BoardView {
        BoardView {
            grid: Seq::new(10, |r: int| Seq::new(10, |c: int| CellState::Empty)),
            fleet: Map::new(|k: ShipType| true, |k: ShipType| ShipView { hits: 0, placed: false }),
            name,
            remaining: 5,
        }
    }

    /// The cell at `row` and `col`.
    pub open spec fn cell(self, row: int, col: int) -> CellState {
        self.grid[row][col]
    }

    /// Whether the ship of the given kind has been hit on all its length.
    pub open spec fn sunk(self, kind: ShipType) -> bool {
        self.fleet[kind].hits == kind.spec_length()
    }

    /// One for a ship that has not been sunk, zero for one that has.
    pub open spec fn afloat_one(self, kind: ShipType) -> nat {
        if self.sunk(kind) {
            0
        } else {
            1
        }
    }

    /// The number of ships of the fleet that have not been sunk.
    pub open spec fn afloat(self) -> nat {
        self.afloat_one(ShipType::Carrier) + self.afloat_one(ShipType::BattleShip)
            + self.afloat_one(ShipType::Cruiser) + self.afloat_one(ShipType::Sub)
            + self.afloat_one(ShipType::Destroyer)
    }

    /// The number of cells that hold an unhit part of the ship of the given
    /// kind.
    pub open spec fn ship_cells(self, kind: ShipType) -> nat {
        count_cells(self.grid, kind, BOARD_CELLS as nat)
    }

    /// The number of cells that have been shot at.
    pub open spec fn shots(self) -> nat {
        count_taken(self.grid, BOARD_CELLS as nat)
    }

    /// The fleet has the ship of this kind, and its unhit cells and its hits
    /// add up to its length once it is placed, to nothing before.
    pub open spec fn accounted(self, kind: ShipType) -> bool {
        &&& self.fleet.dom().contains(kind)
        &&& self.ship_cells(kind) + self.fleet[kind].hits == if self.fleet[kind].placed {
            kind.spec_length()
        } else {
            0
        }
    }

    /// The invariant of a board: the grid is ten by ten, every ship of the
    /// fleet is accounted for on it, and the counter of remaining ships is
    /// the number of ships that have not been sunk.
    pub open spec fn wf(self) -> bool {
        &&& grid_shape(self.grid)
        &&& self.accounted(ShipType::Carrier)
        &&& self.accounted(ShipType::BattleShip)
        &&& self.accounted(ShipType::Cruiser)
        &&& self.accounted(ShipType::Sub)
        &&& self.accounted(ShipType::Destroyer)
        &&& self.remaining == self.afloat()
    }

    /// The grid with the cell at `row` and `col` replaced.
    pub open spec fn grid_with(self, row: int, col: int, state: CellState) -> Seq<
        Seq<CellState>,
    > {
        self.grid.update(row, self.grid[row].update(col, state))
    }

    /// What a shot at `row` and `col` answers.
    pub open spec fn outcome(self, row: int, col: int) -> Outcome {
        match self.cell(row, col) {
            CellState::Ship(kind) => Outcome::Hit(
                kind,
                self.fleet[kind].hits + 1 == kind.spec_length(),
            ),
            CellState::Empty => Outcome::Miss,
            _ => Outcome::AlreadyTaken,
        }
    }

    /// The board after a shot at `row` and `col`.
    ///
    /// A part of a ship becomes `Hit` and the ship counts one more hit; where
    /// that sinks it, one ship fewer remains. An empty cell becomes `Miss`.
    /// A cell that was shot at before leaves the board as it is.
    pub open spec fn shoot(self, row: int, col: int) -> BoardView {
        match self.cell(row, col) {
            CellState::Ship(kind) => {
                let ship = ShipView { hits: self.fleet[kind].hits + 1, placed: true };
                BoardView {
                    grid: self.grid_with(row, col, CellState::Hit),
                    fleet: self.fleet.insert(kind, ship),
                    remaining: if ship.hits == kind.spec_length() {
                        (self.remaining - 1) as nat
                    } else {
                        self.remaining
                    },
                    ..self
                }
            },
            CellState::Empty => BoardView {
                grid: self.grid_with(row, col, CellState::Miss),
                ..self
            },
            _ => self,
        }
    }

    /// Why the ship of the given kind cannot be placed on `cells`, if it
    /// cannot.
    ///
    /// The number of cells is checked first, then that all lie on the grid,
    /// then that all are empty and that none is named twice; a placement
    /// that passes these is refused only where the kind is placed already.
    pub open spec fn placement_error(
        self,
        kind: ShipType,
        cells: Seq<(usize, usize)>,
    ) -> Option<PlacementError> {
        if cells.len() != kind.spec_length() {
            Some(PlacementError::WrongLength)
        } else if exists|i: int| 0 <= i < cells.len() && !in_bounds(#[trigger] cells[i]) {
            Some(PlacementError::OutOfBounds)
        } else if !cells.no_duplicates() || exists|i: int|
            0 <= i < cells.len() && self.cell(
                (#[trigger] cells[i]).0 as int,
                cells[i].1 as int,
            ) != CellState::Empty {
            Some(PlacementError::Overlap)
        } else if self.fleet[kind].placed {
            Some(PlacementError::AlreadyPlaced)
        } else {
            None
        }
    }

    /// The board with the ship of the given kind standing on `cells`.
    pub open spec fn with_ship(self, kind: ShipType, cells: Seq<(usize, usize)>) -> BoardView {
        BoardView {
            grid: overlay(self.grid, kind, cells),
            fleet: self.fleet.insert(kind, ShipView { hits: 0, placed: true }),
            ..self
        }
    }
}

// ---------------------------------------------------------------------------
// Lemmas of the model
// ---------------------------------------------------------------------------

/// Changing one cell changes the count of a kind by what the cell lost and
/// gained, and only once the count reaches that cell.
pub proof fn lemma_count_update(
    g: Seq<Seq<CellState>>,
    h: Seq<Seq<CellState>>,
    row: int,
    col: int,
    kind: ShipType,
    n: nat,
)
    requires
        grid_shape(g),
        grid_shape(h),
        0 <= row < BOARD_SIZE,
        0 <= col < BOARD_SIZE,
        n <= BOARD_CELLS,
        forall|r: int, c: int|
            0 <= r < BOARD_SIZE && 0 <= c < BOARD_SIZE && (r != row || c != col) ==> h[r][c]
                == g[r][c],
    ensures
        count_cells(h, kind, n) + (if row * 10 + col < n && g[row][col] == CellState::Ship(kind) {
            1int
        } else {
            0int
        }) == count_cells(g, kind, n) + (if row * 10 + col < n && h[row][col] == CellState::Ship(
            kind,
        ) {
            1int
        } else {
            0int
        }),
    decreases n,
{
    if n > 0 {
        let i = n - 1;
        lemma_count_update(g, h, row, col, kind, i as nat);
        if i != row * 10 + col {
            assert(i / 10 != row || i % 10 != col);
            assert(h[i / 10][i % 10] == g[i / 10][i % 10]);
        } else {
            assert(i / 10 == row && i % 10 == col);
        }
    }
}

/// Two grids that agree on every cell count the same.
pub proof fn lemma_count_same(
    g: Seq<Seq<CellState>>,
    h: Seq<Seq<CellState>>,
    kind: ShipType,
    n: nat,
)
    requires
        n <= BOARD_CELLS,
        forall|r: int, c: int|
            0 <= r < BOARD_SIZE && 0 <= c < BOARD_SIZE ==> h[r][c] == g[r][c],
    ensures
        count_cells(h, kind, n) == count_cells(g, kind, n),
    decreases n,
{
    if n > 0 {
        let i = n - 1;
        lemma_count_same(g, h, kind, i as nat);
        assert(h[i / 10][i % 10] == g[i / 10][i % 10]);
    }
}

/// A grid of empty cells holds no part of any ship.
pub proof fn lemma_count_empty(g: Seq<Seq<CellState>>, kind: ShipType, n: nat)
    requires
        n <= BOARD_CELLS,
        forall|r: int, c: int|
            0 <= r < BOARD_SIZE && 0 <= c < BOARD_SIZE ==> g[r][c] == CellState::Empty,
    ensures
        count_cells(g, kind, n) == 0,
    decreases n,
{
    if n > 0 {
        let i = n - 1;
        lemma_count_empty(g, kind, i as nat);
        assert(g[i / 10][i % 10] == CellState::Empty);
    }
}

/// No more cells have been shot at than were counted.
pub proof fn lemma_taken_bound(g: Seq<Seq<CellState>>, n: nat)
    ensures
        count_taken(g, n) <= n,
    decreases n,
{
    if n > 0 {
        lemma_taken_bound(g, (n - 1) as nat);
    }
}

/// Changing one cell changes the number of cells shot at by whether the
/// cell was, and is, one of them.
pub proof fn lemma_taken_update(
    g: Seq<Seq<CellState>>,
    h: Seq<Seq<CellState>>,
    row: int,
    col: int,
    n: nat,
)
    requires
        grid_shape(g),
        grid_shape(h),
        0 <= row < BOARD_SIZE,
        0 <= col < BOARD_SIZE,
        n <= BOARD_CELLS,
        forall|r: int, c: int|
            0 <= r < BOARD_SIZE && 0 <= c < BOARD_SIZE && (r != row || c != col) ==> h[r][c]
                == g[r][c],
    ensures
        count_taken(h, n) + (if row * 10 + col < n && is_taken(g[row][col]) {
            1int
        } else {
            0int
        }) == count_taken(g, n) + (if row * 10 + col < n && is_taken(h[row][col]) {
            1int
        } else {
            0int
        }),
    decreases n,
{
    if n > 0 {
        let i = n - 1;
        lemma_taken_update(g, h, row, col, i as nat);
        if i != row * 10 + col {
            assert(i / 10 != row || i % 10 != col);
            assert(h[i / 10][i % 10] == g[i / 10][i % 10]);
        } else {
            assert(i / 10 == row && i % 10 == col);
        }
    }
}

/// Two grids whose cells were shot at alike count the same.
pub proof fn lemma_taken_same(g: Seq<Seq<CellState>>, h: Seq<Seq<CellState>>, n: nat)
    requires
        n <= BOARD_CELLS,
        forall|r: int, c: int|
            0 <= r < BOARD_SIZE && 0 <= c < BOARD_SIZE ==> is_taken(h[r][c]) == is_taken(g[r][c]),
    ensures
        count_taken(h, n) == count_taken(g, n),
    decreases n,
{
    if n > 0 {
        let i = n - 1;
        lemma_taken_same(g, h, i as nat);
        assert(is_taken(h[i / 10][i % 10]) == is_taken(g[i / 10][i % 10]));
    }
}

/// On a grid of empty cells nothing has been shot at.
pub proof fn lemma_taken_none(g: Seq<Seq<CellState>>, n: nat)
    requires
        n <= BOARD_CELLS,
        forall|r: int, c: int|
            0 <= r < BOARD_SIZE && 0 <= c < BOARD_SIZE ==> g[r][c] == CellState::Empty,
    ensures
        count_taken(g, n) == 0,
    decreases n,
{
    if n > 0 {
        let i = n - 1;
        lemma_taken_none(g, i as nat);
        assert(g[i / 10][i % 10] == CellState::Empty);
    }
}

/// A board can be shot at a hundred times and no more: nothing has been
/// shot at on a fresh board, a shot that is not `AlreadyTaken` adds one to
/// the cells shot at, and one that is adds none.
pub proof fn lemma_shots(b: BoardView, row: int, col: int)
    requires
        b.wf(),
        0 <= row < BOARD_SIZE,
        0 <= col < BOARD_SIZE,
    ensures
        b.shots() <= BOARD_CELLS,
        BoardView::fresh(b.name).shots() == 0,
        b.shoot(row, col).shots() == b.shots() + (if b.outcome(row, col) is AlreadyTaken {
            0int
        } else {
            1int
        }),
{
    lemma_taken_bound(b.grid, 100);
    lemma_taken_none(BoardView::fresh(b.name).grid, 100);
    match b.cell(row, col) {
        CellState::Ship(_) => {
            lemma_taken_update(b.grid, b.grid_with(row, col, CellState::Hit), row, col, 100);
        },
        CellState::Empty => {
            lemma_taken_update(b.grid, b.grid_with(row, col, CellState::Miss), row, col, 100);
        },
        _ => {},
    }
}

/// A fresh board is well formed.
pub proof fn lemma_fresh_wf(name: Seq<u8>)
    ensures
        BoardView::fresh(name).wf(),
{
    let b = BoardView::fresh(name);
    lemma_count_empty(b.grid, ShipType::Carrier, 100);
    lemma_count_empty(b.grid, ShipType::BattleShip, 100);
    lemma_count_empty(b.grid, ShipType::Cruiser, 100);
    lemma_count_empty(b.grid, ShipType::Sub, 100);
    lemma_count_empty(b.grid, ShipType::Destroyer, 100);
}

/// Replacing one cell keeps the shape of the grid and changes the count of
/// a kind by what the cell lost and gained.
pub proof fn lemma_count_grid_with(
    b: BoardView,
    row: int,
    col: int,
    state: CellState,
    kind: ShipType,
)
    requires
        grid_shape(b.grid),
        0 <= row < BOARD_SIZE,
        0 <= col < BOARD_SIZE,
    ensures
        grid_shape(b.grid_with(row, col, state)),
        b.grid_with(row, col, state)[row][col] == state,
        count_cells(b.grid_with(row, col, state), kind, 100) + (if b.grid[row][col]
            == CellState::Ship(kind) {
            1int
        } else {
            0int
        }) == count_cells(b.grid, kind, 100) + (if state == CellState::Ship(kind) {
            1int
        } else {
            0int
        }),
{
    lemma_count_update(b.grid, b.grid_with(row, col, state), row, col, kind, 100);
}

/// A shot keeps each ship of the fleet accounted for.
pub proof fn lemma_shoot_accounted(b: BoardView, row: int, col: int, kind: ShipType)
    requires
        b.wf(),
        0 <= row < BOARD_SIZE,
        0 <= col < BOARD_SIZE,
    ensures
        grid_shape(b.shoot(row, col).grid),
        b.shoot(row, col).accounted(kind),
        b.cell(row, col) == CellState::Ship(kind) ==> b.fleet[kind].placed && b.fleet[kind].hits
            < kind.spec_length(),
{
    assert(b.accounted(kind));
    match b.cell(row, col) {
        CellState::Ship(k) => {
            assert(b.accounted(k));
            lemma_count_grid_with(b, row, col, CellState::Hit, kind);
        },
        CellState::Empty => {
            lemma_count_grid_with(b, row, col, CellState::Miss, kind);
        },
        _ => {},
    }
}

/// A shot keeps a board well formed.
pub proof fn lemma_shoot_wf(b: BoardView, row: int, col: int)
    requires
        b.wf(),
        0 <= row < BOARD_SIZE,
        0 <= col < BOARD_SIZE,
    ensures
        b.shoot(row, col).wf(),
        b.cell(row, col) matches CellState::Ship(kind) ==> b.fleet[kind].placed
            && b.fleet[kind].hits < kind.spec_length() && b.remaining > 0,
{
    lemma_shoot_accounted(b, row, col, ShipType::Carrier);
    lemma_shoot_accounted(b, row, col, ShipType::BattleShip);
    lemma_shoot_accounted(b, row, col, ShipType::Cruiser);
    lemma_shoot_accounted(b, row, col, ShipType::Sub);
    lemma_shoot_accounted(b, row, col, ShipType::Destroyer);
    match b.cell(row, col) {
        CellState::Ship(kind) => {
            assert(b.afloat_one(kind) == 1);
        },
        _ => {},
    }
}

/// A board is defeated, in that no ship remains, exactly when every ship of
/// its fleet has as many hits as it is long.
pub proof fn lemma_defeated_iff_all_sunk(b: BoardView)
    requires
        b.wf(),
    ensures
        b.remaining == 0 <==> (forall|kind: ShipType| b.sunk(kind)),
{
    if b.remaining == 0 {
        assert forall|kind: ShipType| b.sunk(kind) by {
            assert(b.afloat_one(kind) == 0);
        }
    }
    if forall|kind: ShipType| b.sunk(kind) {
        assert(b.sunk(ShipType::Carrier) && b.sunk(ShipType::BattleShip) && b.sunk(
            ShipType::Cruiser,
        ) && b.sunk(ShipType::Sub) && b.sunk(ShipType::Destroyer));
    }
}

/// A cell answers `Hit` or `Miss` at most once: after any shot at it, a
/// second shot at the same cell answers `AlreadyTaken` and changes nothing.
pub proof fn lemma_second_shot(b: BoardView, row: int, col: int)
    requires
        b.wf(),
        0 <= row < BOARD_SIZE,
        0 <= col < BOARD_SIZE,
    ensures
        b.outcome(row, col) is AlreadyTaken <==> (b.cell(row, col) is Hit || b.cell(
            row,
            col,
        ) is Miss),
        b.shoot(row, col).outcome(row, col) is AlreadyTaken,
        b.shoot(row, col).shoot(row, col) == b.shoot(row, col),
{
}

/// A shot changes the one cell it is aimed at, and that cell only from a
/// part of a ship to `Hit` or from `Empty` to `Miss`: `Hit` and `Miss` are
/// final.
pub proof fn lemma_shot_changes_one_cell(b: BoardView, row: int, col: int)
    requires
        b.wf(),
        0 <= row < BOARD_SIZE,
        0 <= col < BOARD_SIZE,
    ensures
        forall|r: int, c: int|
            0 <= r < BOARD_SIZE && 0 <= c < BOARD_SIZE && (r != row || c != col) ==> b.shoot(
                row,
                col,
            ).cell(r, c) == b.cell(r, c),
        b.shoot(row, col).cell(row, col) == match b.cell(row, col) {
            CellState::Ship(_) => CellState::Hit,
            CellState::Empty => CellState::Miss,
            taken => taken,
        },
        b.shoot(row, col).name == b.name,
{
}

/// A placement that is accepted changes the cells it names, all of them
/// empty before, to parts of the ship, and no other cell.
pub proof fn lemma_placement_fills_empty_cells(
    b: BoardView,
    kind: ShipType,
    cells: Seq<(usize, usize)>,
)
    requires
        b.wf(),
        b.placement_error(kind, cells) is None,
    ensures
        forall|r: int, c: int|
            0 <= r < BOARD_SIZE && 0 <= c < BOARD_SIZE ==> b.with_ship(kind, cells).cell(r, c) == (
            if covers(cells, r, c) {
                CellState::Ship(kind)
            } else {
                b.cell(r, c)
            }),
        forall|r: int, c: int| covers(cells, r, c) ==> b.cell(r, c) == CellState::Empty,
        b.with_ship(kind, cells).name == b.name,
        b.with_ship(kind, cells).remaining == b.remaining,
        b.with_ship(kind, cells).shots() == b.shots(),
{
    assert forall|r: int, c: int| covers(cells, r, c) implies b.cell(r, c) == CellState::Empty by {
        let i = choose|i: int|
            0 <= i < cells.len() && (#[trigger] cells[i]).0 == r && cells[i].1 == c;
        assert(b.cell(cells[i].0 as int, cells[i].1 as int) == CellState::Empty);
    }
    let after = b.with_ship(kind, cells).grid;
    assert forall|r: int, c: int| 0 <= r < BOARD_SIZE && 0 <= c < BOARD_SIZE implies is_taken(
        after[r][c],
    ) == is_taken(b.grid[r][c]) by {
        if covers(cells, r, c) {
            assert(b.cell(r, c) == CellState::Empty);
        }
    }
    lemma_taken_same(b.grid, after, 100);
}

/// The remaining-ship counter goes down by one with the shot that sinks a
/// ship, and with no other.
pub proof fn lemma_shot_counts(b: BoardView, row: int, col: int)
    requires
        b.wf(),
        0 <= row < BOARD_SIZE,
        0 <= col < BOARD_SIZE,
    ensures
        b.outcome(row, col) matches Outcome::Hit(_, true) ==> b.shoot(row, col).remaining + 1
            == b.remaining,
        !(b.outcome(row, col) matches Outcome::Hit(_, true)) ==> b.shoot(row, col).remaining
            == b.remaining,
{
    lemma_shoot_wf(b, row, col);
}

// ---------------------------------------------------------------------------
// The board
// ---------------------------------------------------------------------------

/// The rows of a grid as sequences.
pub open spec fn grid_view(grid: [[CellState; BOARD_SIZE]; BOARD_SIZE]) -> Seq<Seq<CellState>> {
    Seq::new(10, |r: int| Seq::new(10, |c: int| grid[r][c]))
}

/// The board of one player: the grid, the fleet, the owner's name and the
/// number of ships that have not been sunk.
#[derive(Debug, PartialEq, Eq)]
pub struct Board {
    grid: [[CellState; BOARD_SIZE]; BOARD_SIZE],
    ships: [Ship; 5],
    name: Vec<u8>,
    num_ships: usize,
}

impl View for Board {
    type V = BoardView;

    closed spec fn view(&self) -> BoardView {
        BoardView {
            grid: grid_view(self.grid),
            fleet: Map::new(
                |k: ShipType| true,
                |k: ShipType|
                    ShipView {
                        hits: self.ships[k.spec_index()].hits as nat,
                        placed: self.ships[k.spec_index()].placed,
                    },
            ),
            name: self.name@,
            remaining: self.num_ships as nat,
        }
    }
}

impl Default for Board {
    /// A fresh board without an owner's name.
    fn default() -> (b: Board)
        ensures
            b.wf(),
            b@ == BoardView::fresh(Seq::empty()),
    {
        Board::new(Vec::new())
    }
}

impl Board {
    /// The invariant of a board: that of its model, with each ship of the
    /// fleet standing at the place of its kind.
    pub closed spec fn wf(&self) -> bool {
        &&& self@.wf()
        &&& self.ships[0].ship_type == ShipType::Carrier
        &&& self.ships[1].ship_type == ShipType::BattleShip
        &&& self.ships[2].ship_type == ShipType::Cruiser
        &&& self.ships[3].ship_type == ShipType::Sub
        &&& self.ships[4].ship_type == ShipType::Destroyer
    }

    /// A well-formed board has a well-formed model.
    pub proof fn lemma_wf(&self)
        requires
            self.wf(),
        ensures
            self@.wf(),
    {
    }

    /// A fresh board for the named player.
    pub fn new(name: Vec<u8>) -> (b: Board)
        ensures
            b.wf(),
            b@ == BoardView::fresh(name@),
    {
        let b = Board {
            grid: [[CellState::Empty; BOARD_SIZE]; BOARD_SIZE],
            ships: [
                Ship { ship_type: ShipType::Carrier, hits: 0, placed: false },
                Ship { ship_type: ShipType::BattleShip, hits: 0, placed: false },
                Ship { ship_type: ShipType::Cruiser, hits: 0, placed: false },
                Ship { ship_type: ShipType::Sub, hits: 0, placed: false },
                Ship { ship_type: ShipType::Destroyer, hits: 0, placed: false },
            ],
            name,
            num_ships: 5,
        };
        proof {
            lemma_fresh_wf(name@);
            assert(b@.grid =~~= BoardView::fresh(name@).grid);
            assert(b@.fleet =~= BoardView::fresh(name@).fleet);
        }
        b
    }

    /// The owner's name.
    pub fn name(&self) -> (name: &Vec<u8>)
        ensures
            name@ == self@.name,
    {
        &self.name
    }

    /// The number of ships that have not been sunk.
    pub fn remaining(&self) -> (n: usize)
        ensures
            n == self@.remaining,
    {
        self.num_ships
    }

    /// The state of the cell at `row` and `col`.
    pub fn cell(&self, row: usize, col: usize) -> (state: CellState)
        requires
            row < BOARD_SIZE,
            col < BOARD_SIZE,
        ensures
            state == self@.cell(row as int, col as int),
    {
        self.grid[row][col]
    }

    /// The ship of the given kind: its hits, and whether it is placed.
    pub fn ship(&self, kind: ShipType) -> (ship: Ship)
        requires
            self.wf(),
        ensures
            ship.ship_type == kind,
            ship.hits == self@.fleet[kind].hits,
            ship.placed == self@.fleet[kind].placed,
    {
        self.ships[kind.index()]
    }

    /// Whether every ship of the fleet has been sunk.
    pub fn is_defeated(&self) -> (defeated: bool)
        requires
            self.wf(),
        ensures
            defeated == (self@.remaining == 0),
            defeated == (forall|kind: ShipType| self@.sunk(kind)),
    {
        proof {
            lemma_defeated_iff_all_sunk(self@);
        }
        self.num_ships == 0
    }

    /// Resolves a shot at `row` and `col`.
    ///
    /// A part of a ship is marked `Hit` and answered with the kind and with
    /// whether the ship is now sunk; an empty cell is marked `Miss`; a cell
    /// that was shot at before is answered with `AlreadyTaken` and nothing
    /// changes.
    pub fn resolve_shot(&mut self, row: usize, col: usize) -> (outcome: Outcome)
        requires
            old(self).wf(),
            row < BOARD_SIZE,
            col < BOARD_SIZE,
        ensures
            final(self).wf(),
            outcome == old(self)@.outcome(row as int, col as int),
            final(self)@ == old(self)@.shoot(row as int, col as int),
            outcome is AlreadyTaken ==> *final(self) == *old(self),
    {
        let ghost before = self@;
        proof {
            lemma_shoot_wf(before, row as int, col as int);
        }
        match self.grid[row][col] {
            CellState::Ship(kind) => {
                let k = kind.index();
                self.grid[row][col] = CellState::Hit;
                self.ships[k].hits = self.ships[k].hits + 1;
                let sunk = self.ships[k].hits == kind.length();
                if sunk {
                    self.num_ships = self.num_ships - 1;
                }
                proof {
                    let after = before.shoot(row as int, col as int);
                    assert(self@.grid =~~= after.grid);
                    assert(self@.fleet =~= after.fleet);
                }
                Outcome::Hit(kind, sunk)
            },
            CellState::Empty => {
                self.grid[row][col] = CellState::Miss;
                proof {
                    let after = before.shoot(row as int, col as int);
                    assert(self@.grid =~~= after.grid);
                    assert(self@.fleet =~= after.fleet);
                }
                Outcome::Miss
            },
            _ => Outcome::AlreadyTaken,
        }
    }

    /// Places the ship of the given kind on `cells`, given as rows and
    /// columns.
    ///
    /// Fails, and leaves the board as it was, where `cells` has not the
    /// length of the kind, names a cell off the grid, names a cell twice or
    /// one that is not empty, or where the kind is placed already.
    pub fn place(&mut self, kind: ShipType, cells: &[(usize, usize)]) -> (r: Result<
        (),
        PlacementError,
    >)
        requires
            old(self).wf(),
        ensures
            final(self).wf(),
            match r {
                Ok(_) => old(self)@.placement_error(kind, cells@) is None && final(self)@ == old(
                    self,
                )@.with_ship(kind, cells@),
                Err(e) => old(self)@.placement_error(kind, cells@) == Some(e) && *final(self)
                    == *old(self),
            },
    {
        let ghost before = self@;
        let n = cells.len();
        if n != kind.length() {
            return Err(PlacementError::WrongLength);
        }
        let mut i: usize = 0;
        while i < n
            invariant
                *self == *old(self),
                self.wf(),
                n == cells@.len(),
                n == kind.spec_length(),
                i <= n,
                forall|j: int| 0 <= j < i ==> in_bounds(#[trigger] cells@[j]),
            decreases n - i,
        {
            let cell = cells[i];
            if cell.0 >= BOARD_SIZE || cell.1 >= BOARD_SIZE {
                assert(!in_bounds(cells@[i as int]));
                return Err(PlacementError::OutOfBounds);
            }
            i += 1;
        }
        let mut grid = self.grid;
        let mut i: usize = 0;
        assert(grid_view(grid) =~~= overlay(before.grid, kind, cells@.take(0)));
        while i < n
            invariant
                *self == *old(self),
                self.wf(),
                before == self@,
                n == cells@.len(),
                n == kind.spec_length(),
                i <= n,
                before.grid == grid_view(self.grid),
                forall|j: int| 0 <= j < n ==> in_bounds(#[trigger] cells@[j]),
                grid_view(grid) == overlay(before.grid, kind, cells@.take(i as int)),
                forall|j: int|
                    0 <= j < i ==> before.cell(
                        (#[trigger] cells@[j]).0 as int,
                        cells@[j].1 as int,
                    ) == CellState::Empty,
                cells@.take(i as int).no_duplicates(),
                count_cells(grid_view(grid), kind, 100) == count_cells(before.grid, kind, 100) + i,
                forall|k: ShipType|
                    k != kind ==> #[trigger] count_cells(grid_view(grid), k, 100) == count_cells(
                        before.grid,
                        k,
                        100,
                    ),
            decreases n - i,
        {
            let cell = cells[i];
            let ghost seen = cells@.take(i as int);
            assert(in_bounds(cells@[i as int]));
            assert(grid_view(grid)[cell.0 as int][cell.1 as int]
                == grid[cell.0 as int][cell.1 as int]);
            assert(overlay(before.grid, kind, seen)[cell.0 as int][cell.1 as int] == if covers(
                seen,
                cell.0 as int,
                cell.1 as int,
            ) {
                CellState::Ship(kind)
            } else {
                before.grid[cell.0 as int][cell.1 as int]
            });
            if grid[cell.0][cell.1] != CellState::Empty {
                proof {
                    if covers(seen, cell.0 as int, cell.1 as int) {
                        let j = choose|j: int|
                            0 <= j < seen.len() && (#[trigger] seen[j]).0 == cell.0 && seen[j].1
                                == cell.1;
                        assert(cells@[j] == seen[j]);
                        assert(cells@[j] == cells@[i as int]);
                        assert(!cells@.no_duplicates());
                    } else {
                        assert(before.cell(cells@[i as int].0 as int, cells@[i as int].1 as int)
                            != CellState::Empty);
                    }
                }
                return Err(PlacementError::Overlap);
            }
            let ghost g = grid_view(grid);
            assert(!covers(seen, cell.0 as int, cell.1 as int) && before.cell(
                cell.0 as int,
                cell.1 as int,
            ) == CellState::Empty);
            assert(forall|j: int|
                0 <= j < seen.len() ==> !((#[trigger] seen[j]).0 == cell.0 && seen[j].1 == cell.1));
            grid[cell.0][cell.1] = CellState::Ship(kind);
            let ghost h = grid_view(grid);
            proof {
                let next = cells@.take(i as int + 1);
                assert(next[i as int] == cells@[i as int]);
                assert forall|r: int, c: int| 0 <= r < 10 && 0 <= c < 10 implies h[r][c]
                    == overlay(before.grid, kind, next)[r][c] by {
                    assert(g[r][c] == overlay(before.grid, kind, seen)[r][c]);
                    if covers(seen, r, c) {
                        let j = choose|j: int|
                            0 <= j < seen.len() && (#[trigger] seen[j]).0 == r && seen[j].1 == c;
                        assert(next[j] == seen[j]);
                    }
                    if covers(next, r, c) && !(r == cell.0 && c == cell.1) {
                        let j = choose|j: int|
                            0 <= j < next.len() && (#[trigger] next[j]).0 == r && next[j].1 == c;
                        assert(seen[j] == next[j]);
                    }
                }
                assert(h =~~= overlay(before.grid, kind, next));
                assert forall|a: int, b: int|
                    0 <= a < next.len() && 0 <= b < next.len() && a != b implies next[a]
                    != next[b] by {
                    if a < i && b < i {
                        assert(seen[a] == next[a] && seen[b] == next[b]);
                    } else if a < i {
                        assert(seen[a] == next[a]);
                    } else {
                        assert(seen[b] == next[b]);
                    }
                }
                lemma_count_update(g, h, cell.0 as int, cell.1 as int, kind, 100);
                assert forall|k: ShipType| k != kind implies #[trigger] count_cells(h, k, 100)
                    == count_cells(before.grid, k, 100) by {
                    lemma_count_update(g, h, cell.0 as int, cell.1 as int, k, 100);
                }
            }
            i += 1;
        }
        let k = kind.index();
        proof {
            assert(cells@.take(n as int) =~= cells@);
        }
        if self.ships[k].placed {
            return Err(PlacementError::AlreadyPlaced);
        }
        self.grid = grid;
        self.ships[k].placed = true;
        proof {
            let after = before.with_ship(kind, cells@);
            assert(before.accounted(kind));
            assert(self@.grid =~~= after.grid);
            assert(self@.fleet =~= after.fleet);
            lemma_count_same(grid_view(grid), after.grid, kind, 100);
            assert forall|k: ShipType| k != kind implies after.ship_cells(k) == before.ship_cells(
                k,
            ) by {
                lemma_count_same(grid_view(grid), after.grid, k, 100);
            }
            assert(before.accounted(ShipType::Carrier) && before.accounted(ShipType::BattleShip)
                && before.accounted(ShipType::Cruiser) && before.accounted(ShipType::Sub)
                && before.accounted(ShipType::Destroyer));
        }
        Ok(())
    }
}

} // verus!
