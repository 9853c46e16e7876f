//! What the user interface keeps between two events, and what each event
//! asks of the connection.

use crate::client::{ConnectionHandler, ConnectionView};
use crate::codec::{spec_encode, CommandView};
use crate::values::BOARD_SIZE;
use vstd::prelude::*;
use vstd::string::*;
use vstd::utf8::*;

verus! {

/// One square of a board, as the user picks it.
#[derive(Clone, Copy, PartialEq, Eq, Debug, Structural)]
pub struct Tile {
    pub row: usize,
    pub column: usize,
}

impl Tile {
    /// The tile at a row and a column.
    pub fn new(row: usize, column: usize) -> (tile: Tile)
        ensures
            tile == (Tile { row, column }),
    {
        Tile { row, column }
    }
}

/// What the user did.
#[derive(Clone, Copy, PartialEq, Eq, Debug, Structural)]
pub enum Message {
    /// Asked to join a game.
    JOIN,
    /// Asked for the game to start.
    START,
    /// Asked to leave.
    LEAVE,
    /// Confirmed the shot at the selected tile.
    FIRE,
    /// Something happened that shows that the game was joined.
    EventOccurred,
    /// Picked a tile of the opponent's board.
    BoardClick(Tile),
}

/// What the shell around the user interface has to do after an event.
#[derive(Debug, PartialEq, Eq)]
pub enum Request {
    /// Nothing.
    Nothing,
    /// Open the connection, and hand it over with `joined`.
    Connect,
    /// Write these bytes to the socket.
    Write(Vec<u8>),
    /// Close the socket.
    Close,
}

/// A request as a mathematical value.
pub ghost enum RequestView {
    Nothing,
    Connect,
    Write(Seq<u8>),
    Close,
}

impl View for Request {
    type V = RequestView;

    open spec fn view(&self) -> RequestView {
        match self {
            Request::Nothing => RequestView::Nothing,
            Request::Connect => RequestView::Connect,
            Request::Write(wire) => RequestView::Write(wire@),
            Request::Close => RequestView::Close,
        }
    }
}

/// The state of the user interface as a mathematical value.
pub ghost struct GameView {
    pub my_board: Seq<char>,
    pub started: bool,
    pub joined: bool,
    pub connection: Option<ConnectionView>,
    pub opponent: Seq<char>,
    pub selected_tile: Tile,
    pub username: Seq<char>,
}

impl GameView {
    /// The state before anything happened.
    pub open spec fn fresh() -> GameView {
        GameView {
            my_board: Seq::empty(),
            started: false,
            joined: false,
            connection: None,
            opponent: Seq::empty(),
            selected_tile: Tile { row: 0, column: 0 },
            username: Seq::empty(),
        }
    }

    /// The state after an event: a click selects its tile, and the sign
    /// that the game was joined is taken note of. Nothing else changes the
    /// state by itself.
    pub open spec fn update(self, message: Message) -> GameView {
        match message {
            Message::EventOccurred => GameView { joined: true, ..self },
            Message::BoardClick(tile) => GameView { selected_tile: tile, ..self },
            _ => self,
        }
    }

    /// What an event asks of the shell: to connect; and, once there is a
    /// connection, to write `/start`, to write `/fire` at the selected
    /// tile of the opponent's board, or to close the socket.
    pub open spec fn request(self, message: Message) -> RequestView {
        match message {
            Message::JOIN => RequestView::Connect,
            Message::START => if self.connection is Some {
                RequestView::Write(spec_encode(CommandView::Start))
            } else {
                RequestView::Nothing
            },
            Message::FIRE => if self.connection is Some {
                RequestView::Write(
                    spec_encode(
                        CommandView::Fire {
                            target: encode_utf8(self.opponent),
                            row: self.selected_tile.row,
                            col: self.selected_tile.column,
                        },
                    ),
                )
            } else {
                RequestView::Nothing
            },
            Message::LEAVE => if self.connection is Some {
                RequestView::Close
            } else {
                RequestView::Nothing
            },
            _ => RequestView::Nothing,
        }
    }

    /// The state once the connection is made.
    pub open spec fn joined(self, connection: ConnectionView) -> GameView {
        GameView {
            username: connection.username,
            connection: Some(connection),
            joined: true,
            ..self
        }
    }
}

/// The state of the user interface.
pub struct GameInfo {
    pub my_board: String,
    started: bool,
    joined: bool,
    connection: Option<ConnectionHandler>,
    opponent: String,
    selected_tile: Tile,
    username: String,
}

impl View for GameInfo {
    type V = GameView;

    closed spec fn view(&self) -> GameView {
        GameView {
            my_board: self.my_board@,
            started: self.started,
            joined: self.joined,
            connection: match self.connection {
                Some(connection) => Some(connection@),
                None => None,
            },
            opponent: self.opponent@,
            selected_tile: self.selected_tile,
            username: self.username@,
        }
    }
}

impl Default for GameInfo {
    fn default() -> (game: GameInfo)
        ensures
            game@ == GameView::fresh(),
    {
        GameInfo {
            my_board: String::new(),
            started: false,
            joined: false,
            connection: None,
            opponent: String::new(),
            selected_tile: Tile { row: 0, column: 0 },
            username: String::new(),
        }
    }
}

impl GameInfo {
    /// Takes note of an event and says what it asks of the shell.
    pub fn update(&mut self, message: Message) -> (request: Request)
        ensures
            final(self)@ == old(self)@.update(message),
            request@ == old(self)@.request(message),
    {
        match message {
            Message::JOIN => Request::Connect,
            Message::START => match &self.connection {
                Some(connection) => Request::Write(connection.start()),
                None => Request::Nothing,
            },
            Message::LEAVE => match &self.connection {
                Some(_) => Request::Close,
                None => Request::Nothing,
            },
            Message::FIRE => match &self.connection {
                Some(connection) => Request::Write(
                    connection.fire(self.selected_tile, self.opponent.clone()),
                ),
                None => Request::Nothing,
            },
            Message::EventOccurred => {
                self.joined = true;
                Request::Nothing
            },
            Message::BoardClick(tile) => {
                self.selected_tile = tile;
                Request::Nothing
            },
        }
    }

    /// Takes over the connection that the shell has made: the game is
    /// joined, under the name of the connection.
    pub fn joined(&mut self, connection: ConnectionHandler)
        ensures
            final(self)@ == old(self)@.joined(connection@),
    {
        self.username = connection.username().clone();
        self.connection = Some(connection);
        self.joined = true;
    }

    /// Sets the name of the player to shoot at.
    pub fn set_opponent(&mut self, opponent: String)
        ensures
            final(self)@ == (GameView { opponent: opponent@, ..old(self)@ }),
    {
        self.opponent = opponent;
    }

    /// Whether the game was joined: the board is shown then, the menu
    /// before.
    pub fn is_joined(&self) -> (joined: bool)
        ensures
            joined == self@.joined,
    {
        self.joined
    }

    /// The tile that the user picked last.
    pub fn selected_tile(&self) -> (tile: Tile)
        ensures
            tile == self@.selected_tile,
    {
        self.selected_tile
    }

    /// The name that the user plays under.
    pub fn username(&self) -> (name: &String)
        ensures
            name@ == self@.username,
    {
        &self.username
    }

    /// The heading of the opponent's board: the opponent's name, or
    /// `Player 2` while it is not known.
    pub fn opponent_label(&self) -> (label: String)
        ensures
            label@ == if self@.opponent.len() == 0 {
                "Player 2"@
            } else {
                self@.opponent
            },
    {
        if self.opponent.as_str().is_empty() {
            "Player 2".to_owned()
        } else {
            self.opponent.clone()
        }
    }
}

/// The tiles of a board in the order in which they are laid out: row by
/// row, and each row column by column.
pub fn board_tiles() -> (tiles: Vec<Vec<Tile>>)
    ensures
        tiles@.len() == BOARD_SIZE,
        forall|i: int| 0 <= i < BOARD_SIZE ==> (#[trigger] tiles@[i])@.len() == BOARD_SIZE,
        forall|i: int, j: int|
            0 <= i < BOARD_SIZE && 0 <= j < BOARD_SIZE ==> tiles@[i]@[j] == (Tile {
                row: i as usize,
                column: j as usize,
            }),
{
    let mut tiles: Vec<Vec<Tile>> = Vec::new();
    let mut i: usize = 0;
    while i < BOARD_SIZE
        invariant
            i <= BOARD_SIZE,
            tiles@.len() == i,
            forall|a: int| 0 <= a < i ==> (#[trigger] tiles@[a])@.len() == BOARD_SIZE,
            forall|a: int, b: int|
                0 <= a < i && 0 <= b < BOARD_SIZE ==> tiles@[a]@[b] == (Tile {
                    row: a as usize,
                    column: b as usize,
                }),
        decreases BOARD_SIZE - i,
    {
        let mut row: Vec<Tile> = Vec::new();
        let mut j: usize = 0;
        while j < BOARD_SIZE
            invariant
                i < BOARD_SIZE,
                j <= BOARD_SIZE,
                row@.len() == j,
                forall|b: int| 0 <= b < j ==> row@[b] == (Tile { row: i, column: b as usize }),
            decreases BOARD_SIZE - j,
        {
            row.push(Tile { row: i, column: j });
            j += 1;
        }
        tiles.push(row);
        i += 1;
    }
    tiles
}

} // verus!
