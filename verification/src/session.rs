//! The arbitration of one game: who may join, who may start it, whose turn
//! it is, and what each accepted or rejected command is answered with.

use crate::bytes::{
    append_bytes, bytes_eq, first_index, lemma_first_index, lemma_first_index_unique,
};
use crate::codec::{Command, CommandView};
use crate::values::{
    lemma_fresh_wf, lemma_placement_fills_empty_cells, lemma_shoot_wf, lemma_shots,
    lemma_taken_bound, Board, BoardView, Outcome, PlacementError, ShipType, BOARD_SIZE,
};
use vstd::prelude::*;
use vstd::slice::*;
use vstd::string::*;

verus! {

/// What a move was taken as.
#[derive(Clone, Copy, PartialEq, Eq, Debug, Structural)]
pub enum Commands {
    /// A shot that was resolved.
    FIRE,
    /// A player leaving the game. No command of the protocol asks for it,
    /// and the session takes no move as this.
    END,
    /// The start of the game.
    START,
    /// A command that was rejected.
    INVALID,
}

/// Who a reply goes to.
#[derive(Clone, Copy, PartialEq, Eq, Debug, Structural)]
pub enum Recipient {
    /// The connection that sent the command.
    Sender,
    /// Every connected player.
    Everyone,
    /// The player at this place of the roster.
    Player(usize),
}

/// The fixed texts of the session's replies.
#[derive(Clone, Copy, PartialEq, Eq, Debug, Structural)]
pub enum Notice {
    RosterFull,
    NameTaken,
    GameStarted,
    NotConnected,
    AlreadyStarted,
    TooFewPlayers,
    GameOver,
    NotStarted,
    NotYourTurn,
    UnknownTarget,
    SelfTarget,
    OffBoard,
    AlreadyTaken,
    Miss,
    Hit,
    Sunk,
    YouLose,
    YouWin,
    Unexpected,
}

impl Notice {
    /// The text of the notice.
    pub open spec fn spec_text(self) -> Seq<u8> {
        match self {
            Notice::RosterFull => "The game is full".spec_bytes(),
            Notice::NameTaken => "That name is already taken".spec_bytes(),
            Notice::GameStarted => "Game started".spec_bytes(),
            Notice::NotConnected => "You are not connected".spec_bytes(),
            Notice::AlreadyStarted => "The game has already started".spec_bytes(),
            Notice::TooFewPlayers => "Not enough players to start".spec_bytes(),
            Notice::GameOver => "The game is over".spec_bytes(),
            Notice::NotStarted => "The game has not started".spec_bytes(),
            Notice::NotYourTurn => "It is not your turn".spec_bytes(),
            Notice::UnknownTarget => "No such player".spec_bytes(),
            Notice::SelfTarget => "You cannot fire at yourself".spec_bytes(),
            Notice::OffBoard => "That cell is off the board".spec_bytes(),
            Notice::AlreadyTaken => "That cell was already fired at".spec_bytes(),
            Notice::Miss => "Miss".spec_bytes(),
            Notice::Hit => "Hit".spec_bytes(),
            Notice::Sunk => "Hit and sunk".spec_bytes(),
            Notice::YouLose => "Game Over. You Lose!".spec_bytes(),
            Notice::YouWin => "Game Over. You Win!".spec_bytes(),
            Notice::Unexpected => "Unknown command".spec_bytes(),
        }
    }

    /// The text of the notice.
    pub fn text(self) -> (text: Vec<u8>)
        ensures
            text@ == self.spec_text(),
    {
        match self {
            Notice::RosterFull => "The game is full".as_bytes_vec(),
            Notice::NameTaken => "That name is already taken".as_bytes_vec(),
            Notice::GameStarted => "Game started".as_bytes_vec(),
            Notice::NotConnected => "You are not connected".as_bytes_vec(),
            Notice::AlreadyStarted => "The game has already started".as_bytes_vec(),
            Notice::TooFewPlayers => "Not enough players to start".as_bytes_vec(),
            Notice::GameOver => "The game is over".as_bytes_vec(),
            Notice::NotStarted => "The game has not started".as_bytes_vec(),
            Notice::NotYourTurn => "It is not your turn".as_bytes_vec(),
            Notice::UnknownTarget => "No such player".as_bytes_vec(),
            Notice::SelfTarget => "You cannot fire at yourself".as_bytes_vec(),
            Notice::OffBoard => "That cell is off the board".as_bytes_vec(),
            Notice::AlreadyTaken => "That cell was already fired at".as_bytes_vec(),
            Notice::Miss => "Miss".as_bytes_vec(),
            Notice::Hit => "Hit".as_bytes_vec(),
            Notice::Sunk => "Hit and sunk".as_bytes_vec(),
            Notice::YouLose => "Game Over. You Lose!".as_bytes_vec(),
            Notice::YouWin => "Game Over. You Win!".as_bytes_vec(),
            Notice::Unexpected => "Unknown command".as_bytes_vec(),
        }
    }
}

/// The notice that a player has joined.
pub open spec fn text_joined(name: Seq<u8>) -> Seq<u8> {
    name + " connected to the game".spec_bytes()
}

/// The notice that a player has lost a ship.
pub open spec fn text_lost_ship(name: Seq<u8>) -> Seq<u8> {
    name + " lost a ship".spec_bytes()
}

/// The notice that a player has lost the whole fleet.
pub open spec fn text_defeated(name: Seq<u8>) -> Seq<u8> {
    name + " has been defeated".spec_bytes()
}

/// One command to put on the wire, and for whom.
#[derive(Debug, PartialEq, Eq)]
pub struct Reply {
    pub to: Recipient,
    pub command: Command,
}

/// A reply as a mathematical value.
pub ghost struct ReplyView {
    pub to: Recipient,
    pub command: CommandView,
}

impl View for Reply {
    type V = ReplyView;

    open spec fn view(&self) -> ReplyView {
        ReplyView { to: self.to, command: self.command@ }
    }
}

/// The views of a run of replies.
pub open spec fn replies_view(replies: Seq<Reply>) -> Seq<ReplyView> {
    Seq::new(replies.len(), |i: int| replies[i]@)
}

/// The record of one arbitrated move.
#[derive(Debug, PartialEq, Eq)]
pub struct Move {
    /// `FIRE` or `START` for a move that was accepted, `INVALID` for one
    /// that was rejected.
    pub command: Commands,
    /// The place of the sender in the roster; the length of the roster for
    /// a sender who is not connected.
    pub player: usize,
    /// Whether the move defeated a player, and the place of that player.
    pub kicked: (bool, usize),
    /// The text answered to the sender.
    pub msg: Vec<u8>,
    /// Everything to put on the wire, in order.
    pub replies: Vec<Reply>,
}

/// A move as a mathematical value.
pub ghost struct MoveView {
    pub command: Commands,
    pub player: int,
    pub kicked: (bool, int),
    pub msg: Seq<u8>,
    pub replies: Seq<ReplyView>,
}

impl View for Move {
    type V = MoveView;

    open spec fn view(&self) -> MoveView {
        MoveView {
            command: self.command,
            player: self.player as int,
            kicked: (self.kicked.0, self.kicked.1 as int),
            msg: self.msg@,
            replies: replies_view(self.replies@),
        }
    }
}

/// A `/msg` for the sender.
pub open spec fn msg_to_sender(text: Seq<u8>) -> ReplyView {
    ReplyView { to: Recipient::Sender, command: CommandView::Msg(text) }
}

/// An `/alrt` for the sender.
pub open spec fn alert_to_sender(text: Seq<u8>) -> ReplyView {
    ReplyView { to: Recipient::Sender, command: CommandView::Alrt(text) }
}

/// An `/alrt` for everyone.
pub open spec fn alert_to_all(text: Seq<u8>) -> ReplyView {
    ReplyView { to: Recipient::Everyone, command: CommandView::Alrt(text) }
}

/// A rejected move: the reason goes to the sender alone, as a `/msg`.
pub open spec fn rejection(player: int, notice: Notice) -> MoveView {
    MoveView {
        command: Commands::INVALID,
        player,
        kicked: (false, 0),
        msg: notice.spec_text(),
        replies: seq![msg_to_sender(notice.spec_text())],
    }
}

// ---------------------------------------------------------------------------
// The model
// ---------------------------------------------------------------------------

/// The most players that a roster holds: as many as the turn counter can
/// count a shot at every cell of every board for.
pub const MAX_PLAYERS: usize = usize::MAX / 100;

/// The roster that a session asked to hold `capacity` players has room for.
pub open spec fn roster_limit(capacity: usize) -> nat {
    if capacity <= MAX_PLAYERS {
        capacity as nat
    } else {
        MAX_PLAYERS as nat
    }
}

/// The number of cells that have been shot at on all of `boards`.
pub open spec fn total_shots(boards: Seq<BoardView>) -> nat
    decreases boards.len(),
{
    if boards.len() == 0 {
        0
    } else {
        total_shots(boards.drop_last()) + boards.last().shots()
    }
}

/// A session as a mathematical value.
pub ghost struct SessionView {
    /// The names of the players, in the order in which they joined.
    pub players: Seq<Seq<u8>>,
    /// The board of each player, at the player's place.
    pub boards: Seq<BoardView>,
    /// The number of shots that have been resolved.
    pub turns: nat,
    /// Whether the game has started.
    pub started: bool,
    /// Whether the game has ended.
    pub finished: bool,
    /// The number of players that the roster has room for.
    pub capacity: nat,
}

impl SessionView {
    /// A session that nobody has joined.
    pub open spec fn fresh(capacity: nat) -> SessionView {
        SessionView {
            players: Seq::empty(),
            boards: Seq::empty(),
            turns: 0,
            started: false,
            finished: false,
            capacity,
        }
    }

    /// The invariant of a session: no name occurs twice, the roster fits
    /// its capacity, each player has a well-formed board under the
    /// player's name, a game that has started has two players or more,
    /// only a game that has started can have ended, until it has ended
    /// every player has a ship left, and the turn counter is the number of
    /// cells that have been shot at.
    pub open spec fn wf(self) -> bool {
        &&& self.players.no_duplicates()
        &&& self.players.len() <= self.capacity <= MAX_PLAYERS
        &&& self.turns == total_shots(self.boards)
        &&& self.boards.len() == self.players.len()
        &&& forall|i: int|
            0 <= i < self.boards.len() ==> (#[trigger] self.boards[i]).wf() && self.boards[i].name
                == self.players[i]
        &&& self.started ==> self.players.len() >= 2
        &&& self.finished ==> self.started
        &&& !self.finished ==> forall|i: int|
            0 <= i < self.boards.len() ==> (#[trigger] self.boards[i]).remaining > 0
    }

    /// The place of the named player in the roster, or the length of the
    /// roster for a name that is not on it.
    pub open spec fn seat(self, name: Seq<u8>) -> int {
        first_index(self.players, name)
    }

    /// The place of the player whose turn it is: the players take turns in
    /// the order in which they joined.
    pub open spec fn current(self) -> int {
        (self.turns % self.players.len()) as int
    }

    /// Why a player of this name is not let in, if so.
    pub open spec fn connect_refusal(self, name: Seq<u8>) -> Option<Notice> {
        if self.finished {
            Some(Notice::GameOver)
        } else if self.players.len() >= self.capacity {
            Some(Notice::RosterFull)
        } else if self.seat(name) < self.players.len() {
            Some(Notice::NameTaken)
        } else {
            None
        }
    }

    /// The session after `/cnct` with this name.
    pub open spec fn connect(self, name: Seq<u8>) -> SessionView {
        if self.connect_refusal(name) is None {
            SessionView {
                players: self.players.push(name),
                boards: self.boards.push(BoardView::fresh(name)),
                ..self
            }
        } else {
            self
        }
    }

    /// What `/cnct` with this name is answered with: an `/alrt` to
    /// everyone that the player has joined, or an `/alrt` to the sender
    /// that says why not.
    pub open spec fn connect_replies(self, name: Seq<u8>) -> Seq<ReplyView> {
        match self.connect_refusal(name) {
            None => seq![alert_to_all(text_joined(name))],
            Some(notice) => seq![alert_to_sender(notice.spec_text())],
        }
    }

    /// Why `/start` from this sender is rejected, if so.
    pub open spec fn start_refusal(self, sender: Seq<u8>) -> Option<Notice> {
        if self.finished {
            Some(Notice::GameOver)
        } else if self.seat(sender) >= self.players.len() {
            Some(Notice::NotConnected)
        } else if self.started {
            Some(Notice::AlreadyStarted)
        } else if self.players.len() < 2 {
            Some(Notice::TooFewPlayers)
        } else {
            None
        }
    }

    /// The session after `/start` from this sender.
    pub open spec fn start(self, sender: Seq<u8>) -> SessionView {
        if self.start_refusal(sender) is None {
            SessionView { started: true, ..self }
        } else {
            self
        }
    }

    /// The record of `/start` from this sender: accepted, it is announced
    /// to everyone.
    pub open spec fn start_move(self, sender: Seq<u8>) -> MoveView {
        match self.start_refusal(sender) {
            None => MoveView {
                command: Commands::START,
                player: self.seat(sender),
                kicked: (false, 0),
                msg: Notice::GameStarted.spec_text(),
                replies: seq![alert_to_all(Notice::GameStarted.spec_text())],
            },
            Some(notice) => rejection(self.seat(sender), notice),
        }
    }

    /// Why `/fire` from this sender is rejected, if so.
    ///
    /// A shot is resolved only in a game that has started and not ended,
    /// for a connected sender whose turn it is, at another connected
    /// player, on a cell of the grid that has not been shot at.
    pub open spec fn fire_refusal(
        self,
        sender: Seq<u8>,
        target: Seq<u8>,
        row: usize,
        col: usize,
    ) -> Option<Notice> {
        if self.finished {
            Some(Notice::GameOver)
        } else if !self.started {
            Some(Notice::NotStarted)
        } else if self.seat(sender) >= self.players.len() {
            Some(Notice::NotConnected)
        } else if self.seat(sender) != self.current() {
            Some(Notice::NotYourTurn)
        } else if self.seat(target) >= self.players.len() {
            Some(Notice::UnknownTarget)
        } else if self.seat(target) == self.seat(sender) {
            Some(Notice::SelfTarget)
        } else if row >= BOARD_SIZE || col >= BOARD_SIZE {
            Some(Notice::OffBoard)
        } else if self.boards[self.seat(target)].outcome(row as int, col as int) is AlreadyTaken {
            Some(Notice::AlreadyTaken)
        } else {
            None
        }
    }

    /// The session after `/fire` from this sender: an accepted shot is
    /// resolved on the target's board and counted as a turn, and ends the
    /// game where it sinks the target's last ship.
    pub open spec fn fire(
        self,
        sender: Seq<u8>,
        target: Seq<u8>,
        row: usize,
        col: usize,
    ) -> SessionView {
        if self.fire_refusal(sender, target, row, col) is None {
            let t = self.seat(target);
            let board = self.boards[t].shoot(row as int, col as int);
            SessionView {
                boards: self.boards.update(t, board),
                turns: self.turns + 1,
                finished: board.remaining == 0,
                ..self
            }
        } else {
            self
        }
    }

    /// The record of `/fire` from this sender.
    ///
    /// The sender is told of the miss, the hit or the sinking. A sinking is
    /// announced to everyone. Where the target's last ship went down, the
    /// defeat is announced instead, the loser is disconnected and the
    /// winner is told.
    pub open spec fn fire_move(
        self,
        sender: Seq<u8>,
        target: Seq<u8>,
        row: usize,
        col: usize,
    ) -> MoveView {
        let s = self.seat(sender);
        let t = self.seat(target);
        match self.fire_refusal(sender, target, row, col) {
            Some(notice) => rejection(s, notice),
            None => {
                let board = self.boards[t];
                match board.outcome(row as int, col as int) {
                    Outcome::Hit(_, true) => if board.shoot(row as int, col as int).remaining == 0 {
                        MoveView {
                            command: Commands::FIRE,
                            player: s,
                            kicked: (true, t),
                            msg: Notice::Sunk.spec_text(),
                            replies: seq![
                                msg_to_sender(Notice::Sunk.spec_text()),
                                alert_to_all(text_defeated(target)),
                                ReplyView {
                                    to: Recipient::Player(t as usize),
                                    command: CommandView::Dscnct(Notice::YouLose.spec_text()),
                                },
                                ReplyView {
                                    to: Recipient::Player(s as usize),
                                    command: CommandView::Alrt(Notice::YouWin.spec_text()),
                                },
                            ],
                        }
                    } else {
                        MoveView {
                            command: Commands::FIRE,
                            player: s,
                            kicked: (false, 0),
                            msg: Notice::Sunk.spec_text(),
                            replies: seq![
                                msg_to_sender(Notice::Sunk.spec_text()),
                                alert_to_all(text_lost_ship(target)),
                            ],
                        }
                    },
                    Outcome::Hit(_, false) => MoveView {
                        command: Commands::FIRE,
                        player: s,
                        kicked: (false, 0),
                        msg: Notice::Hit.spec_text(),
                        replies: seq![msg_to_sender(Notice::Hit.spec_text())],
                    },
                    _ => MoveView {
                        command: Commands::FIRE,
                        player: s,
                        kicked: (false, 0),
                        msg: Notice::Miss.spec_text(),
                        replies: seq![msg_to_sender(Notice::Miss.spec_text())],
                    },
                }
            },
        }
    }

    /// The session after the ship of a kind is placed on a player's board
    /// during setup.
    pub open spec fn place(
        self,
        player: int,
        kind: ShipType,
        cells: Seq<(usize, usize)>,
    ) -> SessionView {
        if self.boards[player].placement_error(kind, cells) is None {
            SessionView {
                boards: self.boards.update(player, self.boards[player].with_ship(kind, cells)),
                ..self
            }
        } else {
            self
        }
    }

    /// The session after a command from this sender, whatever the command.
    pub open spec fn handle(self, sender: Seq<u8>, command: CommandView) -> SessionView {
        match command {
            CommandView::Cnct(name) => self.connect(name),
            CommandView::Start => self.start(sender),
            CommandView::Fire { target, row, col } => self.fire(sender, target, row, col),
            _ => self,
        }
    }

    /// What a command from this sender is answered with. A command that
    /// is not for the session to arbitrate is rejected like any other,
    /// with a `/msg` to the sender.
    pub open spec fn handle_replies(self, sender: Seq<u8>, command: CommandView) -> Seq<
        ReplyView,
    > {
        match command {
            CommandView::Cnct(name) => self.connect_replies(name),
            CommandView::Start => self.start_move(sender).replies,
            CommandView::Fire { target, row, col } => self.fire_move(
                sender,
                target,
                row,
                col,
            ).replies,
            _ => seq![msg_to_sender(Notice::Unexpected.spec_text())],
        }
    }
}

/// A fresh board is well formed and bears the name it was made with.
proof fn lemma_fresh_board(name: Seq<u8>)
    ensures
        BoardView::fresh(name).wf(),
        BoardView::fresh(name).name == name,
{
    lemma_fresh_wf(name);
}

/// A board that joins adds its shots to the total.
pub proof fn lemma_total_push(boards: Seq<BoardView>, board: BoardView)
    ensures
        total_shots(boards.push(board)) == total_shots(boards) + board.shots(),
{
    assert(boards.push(board).drop_last() =~= boards);
}

/// A board that changes changes the total by as much as its own shots.
pub proof fn lemma_total_update(boards: Seq<BoardView>, i: int, board: BoardView)
    requires
        0 <= i < boards.len(),
    ensures
        total_shots(boards.update(i, board)) + boards[i].shots() == total_shots(boards)
            + board.shots(),
    decreases boards.len(),
{
    let after = boards.update(i, board);
    if i == boards.len() - 1 {
        assert(after.drop_last() =~= boards.drop_last());
    } else {
        assert(after.drop_last() =~= boards.drop_last().update(i, board));
        assert(boards.drop_last()[i] == boards[i]);
        lemma_total_update(boards.drop_last(), i, board);
    }
}

/// No board can be shot at more than a hundred times, so the total is at
/// most a hundred for each board.
pub proof fn lemma_total_bound(boards: Seq<BoardView>)
    ensures
        total_shots(boards) <= 100 * boards.len(),
    decreases boards.len(),
{
    if boards.len() > 0 {
        lemma_total_bound(boards.drop_last());
        lemma_taken_bound(boards.last().grid, 100);
    }
}

/// One `/fire` as it reaches the session.
pub ghost struct Shot {
    pub sender: Seq<u8>,
    pub target: Seq<u8>,
    pub row: usize,
    pub col: usize,
}

/// Whether a move was rejected: it is `INVALID`, defeats nobody, and is
/// answered with one `/msg`, to the sender alone.
pub open spec fn is_rejection(mv: MoveView) -> bool {
    &&& mv.command == Commands::INVALID
    &&& !mv.kicked.0
    &&& mv.replies.len() == 1
    &&& mv.replies[0].to == Recipient::Sender
    &&& mv.replies[0].command is Msg
}

/// The session after a run of shots, each arbitrated in turn.
pub open spec fn after_shots(s: SessionView, shots: Seq<Shot>) -> SessionView
    decreases shots.len(),
{
    if shots.len() == 0 {
        s
    } else {
        let shot = shots.last();
        after_shots(s, shots.drop_last()).fire(shot.sender, shot.target, shot.row, shot.col)
    }
}

/// The record of the shot at place `i` of a run of shots.
pub open spec fn answer_to(s: SessionView, shots: Seq<Shot>, i: int) -> MoveView {
    let shot = shots[i];
    after_shots(s, shots.take(i)).fire_move(shot.sender, shot.target, shot.row, shot.col)
}

/// Turn arbitration: in a game that has started, shots from anyone but the
/// player whose turn it is leave the session as it was, however many they
/// are, and each is rejected with a `/msg` to its sender.
pub proof fn lemma_out_of_turn(s: SessionView, shots: Seq<Shot>)
    requires
        s.wf(),
        s.started,
        forall|i: int| 0 <= i < shots.len() ==> s.seat((#[trigger] shots[i]).sender) != s.current(),
    ensures
        after_shots(s, shots) == s,
        forall|i: int| 0 <= i < shots.len() ==> is_rejection(#[trigger] answer_to(s, shots, i)),
    decreases shots.len(),
{
    if shots.len() > 0 {
        let front = shots.drop_last();
        assert forall|i: int| 0 <= i < front.len() implies s.seat((#[trigger] front[i]).sender)
            != s.current() by {
            assert(front[i] == shots[i]);
        }
        lemma_out_of_turn(s, front);
        let last = shots.last();
        assert(s.fire_refusal(last.sender, last.target, last.row, last.col) is Some);
        assert forall|i: int| 0 <= i < shots.len() implies is_rejection(
            #[trigger] answer_to(s, shots, i),
        ) by {
            let head = shots.take(i);
            assert forall|j: int| 0 <= j < head.len() implies s.seat((#[trigger] head[j]).sender)
                != s.current() by {
                assert(head[j] == shots[j]);
            }
            lemma_out_of_turn(s, head);
            let shot = shots[i];
            assert(s.fire_refusal(shot.sender, shot.target, shot.row, shot.col) is Some);
        }
    }
}

/// For as long as the game has not started, every shot is rejected and
/// leaves the session as it was.
pub proof fn lemma_no_shot_before_start(s: SessionView, shot: Shot)
    requires
        s.wf(),
        !s.started,
    ensures
        s.fire(shot.sender, shot.target, shot.row, shot.col) == s,
        is_rejection(s.fire_move(shot.sender, shot.target, shot.row, shot.col)),
{
}

/// A game that has started stays started, whatever command comes next.
pub proof fn lemma_started_stays(s: SessionView, sender: Seq<u8>, command: CommandView)
    requires
        s.wf(),
        s.started,
    ensures
        s.handle(sender, command).started,
{
}

/// Every command leaves a well-formed session well formed.
pub proof fn lemma_handle_wf(s: SessionView, sender: Seq<u8>, command: CommandView)
    requires
        s.wf(),
    ensures
        s.handle(sender, command).wf(),
{
    let a = s.handle(sender, command);
    match command {
        CommandView::Cnct(name) => {
            if s.connect_refusal(name) is None {
                lemma_first_index(s.players, name);
                lemma_fresh_board(name);
                lemma_shots(BoardView::fresh(name), 0, 0);
                lemma_total_push(s.boards, BoardView::fresh(name));
                assert forall|i: int, j: int|
                    0 <= i < a.players.len() && 0 <= j < a.players.len() && i
                        != j implies a.players[i] != a.players[j] by {
                    if i < s.players.len() && j < s.players.len() {
                        assert(s.players[i] != s.players[j]);
                    }
                }
                assert forall|i: int| 0 <= i < a.boards.len() implies (#[trigger] a.boards[i]).wf()
                    && a.boards[i].name == a.players[i] && a.boards[i].remaining > 0 by {
                    if i < s.boards.len() {
                        assert(a.boards[i] == s.boards[i]);
                    }
                }
            }
        },
        CommandView::Fire { target, row, col } => {
            if s.fire_refusal(sender, target, row, col) is None {
                let t = s.seat(target);
                lemma_first_index(s.players, target);
                lemma_first_index(s.players, sender);
                lemma_shoot_wf(s.boards[t], row as int, col as int);
                lemma_shots(s.boards[t], row as int, col as int);
                lemma_total_update(s.boards, t, a.boards[t]);
                assert forall|i: int| 0 <= i < a.boards.len() implies (#[trigger] a.boards[i]).wf()
                    && a.boards[i].name == a.players[i] by {
                    if i != t {
                        assert(a.boards[i] == s.boards[i]);
                    }
                }
                if !a.finished {
                    assert forall|i: int| 0 <= i < a.boards.len() implies (
                    #[trigger] a.boards[i]).remaining > 0 by {
                        if i != t {
                            assert(a.boards[i] == s.boards[i]);
                        }
                    }
                }
            }
        },
        _ => {},
    }
}

/// A placement leaves a well-formed session well formed, where it leaves
/// the board well formed.
pub proof fn lemma_place_wf(s: SessionView, player: int, kind: ShipType, cells: Seq<(usize, usize)>)
    requires
        s.wf(),
        0 <= player < s.boards.len(),
        s.boards[player].placement_error(kind, cells) is None ==> s.boards[player].with_ship(
            kind,
            cells,
        ).wf(),
    ensures
        s.place(player, kind, cells).wf(),
{
    let a = s.place(player, kind, cells);
    if s.boards[player].placement_error(kind, cells) is None {
        lemma_placement_fills_empty_cells(s.boards[player], kind, cells);
        lemma_total_update(s.boards, player, a.boards[player]);
        assert forall|i: int| 0 <= i < a.boards.len() implies (#[trigger] a.boards[i]).wf()
            && a.boards[i].name == a.players[i] by {
            if i != player {
                assert(a.boards[i] == s.boards[i]);
            }
        }
        if !a.finished {
            assert forall|i: int| 0 <= i < a.boards.len() implies (
            #[trigger] a.boards[i]).remaining > 0 by {
                if i != player {
                    assert(a.boards[i] == s.boards[i]);
                } else {
                    assert(s.boards[player].remaining > 0);
                }
            }
        }
    }
}

// ---------------------------------------------------------------------------
// The session
// ---------------------------------------------------------------------------

/// The names of a roster as sequences of bytes.
pub open spec fn names_view(names: Seq<Vec<u8>>) -> Seq<Seq<u8>> {
    Seq::new(names.len(), |i: int| names[i]@)
}

/// The boards of a session as mathematical values.
pub open spec fn boards_view(boards: Seq<Board>) -> Seq<BoardView> {
    Seq::new(boards.len(), |i: int| boards[i]@)
}

/// One game: the roster, a board for each player, the turn counter, and
/// whether the game has started and ended.
pub struct BattleShip {
    state: Vec<Board>,
    turns: usize,
    players: Vec<Vec<u8>>,
    started: bool,
    finished: bool,
    capacity: usize,
}

impl View for BattleShip {
    type V = SessionView;

    closed spec fn view(&self) -> SessionView {
        SessionView {
            players: names_view(self.players@),
            boards: boards_view(self.state@),
            turns: self.turns as nat,
            started: self.started,
            finished: self.finished,
            capacity: self.capacity as nat,
        }
    }
}

impl Default for BattleShip {
    /// A session for two players.
    fn default() -> (s: BattleShip)
        ensures
            s.wf(),
            s@ == SessionView::fresh(2),
    {
        BattleShip::new(2)
    }
}

/// A `/msg` with the text of a notice, for the sender.
fn notice_reply(notice: Notice) -> (reply: Reply)
    ensures
        reply@ == msg_to_sender(notice.spec_text()),
{
    Reply { to: Recipient::Sender, command: Command::Msg(notice.text()) }
}

/// An `/alrt` for everyone.
fn alert_reply(text: Vec<u8>) -> (reply: Reply)
    ensures
        reply@ == alert_to_all(text@),
{
    Reply { to: Recipient::Everyone, command: Command::Alrt(text) }
}

/// A name followed by a fixed text.
fn named_text(name: &[u8], suffix: &str) -> (text: Vec<u8>)
    ensures
        text@ == name@ + suffix.spec_bytes(),
{
    let mut text = slice_to_vec(name);
    append_bytes(&mut text, suffix.as_bytes());
    text
}

/// The record of a rejected move.
fn rejected(player: usize, notice: Notice) -> (mv: Move)
    ensures
        mv@ == rejection(player as int, notice),
{
    let mut replies: Vec<Reply> = Vec::new();
    replies.push(notice_reply(notice));
    let mv = Move {
        command: Commands::INVALID,
        player,
        kicked: (false, 0),
        msg: notice.text(),
        replies,
    };
    assert(mv@.replies =~= seq![msg_to_sender(notice.spec_text())]);
    mv
}

impl BattleShip {
    /// The invariant of a session: that of its model, with every board
    /// well formed.
    pub closed spec fn wf(&self) -> bool {
        &&& self@.wf()
        &&& forall|i: int| 0 <= i < self.state@.len() ==> (#[trigger] self.state@[i]).wf()
    }

    /// A well-formed session has a well-formed model.
    pub proof fn lemma_wf(&self)
        requires
            self.wf(),
        ensures
            self@.wf(),
    {
    }

    /// A session with room for `capacity` players, and for no more than
    /// `MAX_PLAYERS`, which nobody has joined.
    pub fn new(capacity: usize) -> (s: BattleShip)
        ensures
            s.wf(),
            s@ == SessionView::fresh(roster_limit(capacity)),
    {
        let s = BattleShip {
            state: Vec::new(),
            turns: 0,
            players: Vec::new(),
            started: false,
            finished: false,
            capacity: if capacity <= MAX_PLAYERS {
                capacity
            } else {
                MAX_PLAYERS
            },
        };
        assert(s@.players =~= Seq::<Seq<u8>>::empty());
        assert(s@.boards =~= Seq::<BoardView>::empty());
        s
    }

    /// The names of the players, in the order in which they joined.
    pub fn players(&self) -> (players: &Vec<Vec<u8>>)
        ensures
            names_view(players@) == self@.players,
    {
        &self.players
    }

    /// The number of shots that have been resolved.
    pub fn turns(&self) -> (turns: usize)
        ensures
            turns == self@.turns,
    {
        self.turns
    }

    /// Whether the game has started.
    pub fn started(&self) -> (started: bool)
        ensures
            started == self@.started,
    {
        self.started
    }

    /// Whether the game has ended.
    pub fn finished(&self) -> (finished: bool)
        ensures
            finished == self@.finished,
    {
        self.finished
    }

    /// The board of the player at a place of the roster.
    pub fn board(&self, player: usize) -> (board: &Board)
        requires
            self.wf(),
            player < self@.players.len(),
        ensures
            board.wf(),
            board@ == self@.boards[player as int],
    {
        &self.state[player]
    }

    /// The place of a name in the roster, or the length of the roster.
    fn seat(&self, name: &[u8]) -> (i: usize)
        ensures
            i == self@.seat(name@),
            i <= self@.players.len(),
    {
        let n = self.players.len();
        let mut i: usize = 0;
        while i < n && !bytes_eq(self.players[i].as_slice(), name)
            invariant
                n == self.players@.len(),
                i <= n,
                forall|j: int| 0 <= j < i ==> names_view(self.players@)[j] != name@,
            decreases n - i,
        {
            i += 1;
        }
        proof {
            lemma_first_index_unique(names_view(self.players@), name@, i as int);
        }
        i
    }

    /// Arbitrates `/cnct` with this name.
    ///
    /// The player joins, with a fresh board, while the game has not ended,
    /// the roster has room and nobody has the name; everyone is then told.
    /// Otherwise nothing changes and the sender is told why.
    pub fn connect(&mut self, name: &[u8]) -> (replies: Vec<Reply>)
        requires
            old(self).wf(),
        ensures
            final(self).wf(),
            final(self)@ == old(self)@.connect(name@),
            replies_view(replies@) == old(self)@.connect_replies(name@),
    {
        let ghost before = self@;
        let n = self.players.len();
        let mut replies: Vec<Reply> = Vec::new();
        let refusal = if self.finished {
            Some(Notice::GameOver)
        } else if n >= self.capacity {
            Some(Notice::RosterFull)
        } else if self.seat(name) < n {
            Some(Notice::NameTaken)
        } else {
            None
        };
        match refusal {
            Some(notice) => {
                replies.push(
                    Reply { to: Recipient::Sender, command: Command::Alrt(notice.text()) },
                );
                assert(replies_view(replies@) =~= before.connect_replies(name@));
            },
            None => {
                proof {
                    lemma_first_index(before.players, name@);
                    lemma_fresh_board(name@);
                }
                self.players.push(slice_to_vec(name));
                self.state.push(Board::new(slice_to_vec(name)));
                replies.push(alert_reply(named_text(name, " connected to the game")));
                proof {
                    let after = before.connect(name@);
                    assert(self@.players =~= after.players);
                    assert(self@.boards =~= after.boards);
                    assert(replies_view(replies@) =~= before.connect_replies(name@));
                    lemma_handle_wf(before, name@, CommandView::Cnct(name@));
                    assert forall|i: int, j: int|
                        0 <= i < after.players.len() && 0 <= j < after.players.len() && i
                            != j implies after.players[i] != after.players[j] by {
                        if i < n && j < n {
                            assert(before.players[i] != before.players[j]);
                        }
                    }
                }
            },
        }
        replies
    }

    /// Arbitrates `/start` from this sender.
    ///
    /// The game starts where the sender is connected, two players or more
    /// are present, and the game has neither started nor ended; everyone
    /// is then told. Otherwise nothing changes and the sender is told why.
    pub fn start(&mut self, sender: &[u8]) -> (mv: Move)
        requires
            old(self).wf(),
        ensures
            final(self).wf(),
            final(self)@ == old(self)@.start(sender@),
            mv@ == old(self)@.start_move(sender@),
    {
        let n = self.players.len();
        let s = self.seat(sender);
        if self.finished {
            return rejected(s, Notice::GameOver);
        }
        if s >= n {
            return rejected(s, Notice::NotConnected);
        }
        if self.started {
            return rejected(s, Notice::AlreadyStarted);
        }
        if n < 2 {
            return rejected(s, Notice::TooFewPlayers);
        }
        self.started = true;
        let mut replies: Vec<Reply> = Vec::new();
        replies.push(alert_reply(Notice::GameStarted.text()));
        let mv = Move {
            command: Commands::START,
            player: s,
            kicked: (false, 0),
            msg: Notice::GameStarted.text(),
            replies,
        };
        assert(mv@.replies =~= seq![alert_to_all(Notice::GameStarted.spec_text())]);
        mv
    }

    /// Arbitrates `/fire` from this sender at the named target.
    ///
    /// The shot is resolved on the target's board where the game is on,
    /// it is the sender's turn, the target is another connected player and
    /// the cell lies on the grid and has not been shot at. The turn then
    /// passes on, and the game ends where the target's last ship sank.
    /// Otherwise nothing changes and the sender is told why.
    pub fn fire(&mut self, sender: &[u8], target: &[u8], row: usize, col: usize) -> (mv: Move)
        requires
            old(self).wf(),
        ensures
            final(self).wf(),
            final(self)@ == old(self)@.fire(sender@, target@, row, col),
            mv@ == old(self)@.fire_move(sender@, target@, row, col),
    {
        let ghost before = self@;
        let n = self.players.len();
        let s = self.seat(sender);
        if self.finished {
            return rejected(s, Notice::GameOver);
        }
        if !self.started {
            return rejected(s, Notice::NotStarted);
        }
        if s >= n {
            return rejected(s, Notice::NotConnected);
        }
        if self.turns % n != s {
            return rejected(s, Notice::NotYourTurn);
        }
        let t = self.seat(target);
        if t >= n {
            return rejected(s, Notice::UnknownTarget);
        }
        if t == s {
            return rejected(s, Notice::SelfTarget);
        }
        if row >= BOARD_SIZE || col >= BOARD_SIZE {
            return rejected(s, Notice::OffBoard);
        }
        let outcome = self.state[t].resolve_shot(row, col);
        if let Outcome::AlreadyTaken = outcome {
            assert(self@.boards =~= before.boards);
            return rejected(s, Notice::AlreadyTaken);
        }
        let defeated = self.state[t].is_defeated();
        proof {
            let after = before.fire(sender@, target@, row, col);
            lemma_handle_wf(before, sender@, CommandView::Fire { target: target@, row, col });
            lemma_total_bound(after.boards);
        }
        self.turns = self.turns + 1;
        self.finished = defeated;
        proof {
            let after = before.fire(sender@, target@, row, col);
            self.state@[t as int].lemma_wf();
            assert(self@.boards =~= after.boards);
            assert(self@.players =~= after.players);
        }
        let mut replies: Vec<Reply> = Vec::new();
        match outcome {
            Outcome::Hit(_, true) => {
                replies.push(notice_reply(Notice::Sunk));
                if defeated {
                    replies.push(alert_reply(named_text(target, " has been defeated")));
                    replies.push(
                        Reply {
                            to: Recipient::Player(t),
                            command: Command::Dscnct(Notice::YouLose.text()),
                        },
                    );
                    replies.push(
                        Reply {
                            to: Recipient::Player(s),
                            command: Command::Alrt(Notice::YouWin.text()),
                        },
                    );
                    let mv = Move {
                        command: Commands::FIRE,
                        player: s,
                        kicked: (true, t),
                        msg: Notice::Sunk.text(),
                        replies,
                    };
                    assert(mv@.replies =~= before.fire_move(sender@, target@, row, col).replies);
                    mv
                } else {
                    replies.push(alert_reply(named_text(target, " lost a ship")));
                    let mv = Move {
                        command: Commands::FIRE,
                        player: s,
                        kicked: (false, 0),
                        msg: Notice::Sunk.text(),
                        replies,
                    };
                    assert(mv@.replies =~= before.fire_move(sender@, target@, row, col).replies);
                    mv
                }
            },
            Outcome::Hit(_, false) => {
                replies.push(notice_reply(Notice::Hit));
                let mv = Move {
                    command: Commands::FIRE,
                    player: s,
                    kicked: (false, 0),
                    msg: Notice::Hit.text(),
                    replies,
                };
                assert(mv@.replies =~= before.fire_move(sender@, target@, row, col).replies);
                mv
            },
            _ => {
                replies.push(notice_reply(Notice::Miss));
                let mv = Move {
                    command: Commands::FIRE,
                    player: s,
                    kicked: (false, 0),
                    msg: Notice::Miss.text(),
                    replies,
                };
                assert(mv@.replies =~= before.fire_move(sender@, target@, row, col).replies);
                mv
            },
        }
    }

    /// Arbitrates any command from this sender: `/cnct`, `/start` and
    /// `/fire` as above, and every other command by a `/msg` to the sender
    /// that it is not known here.
    pub fn handle(&mut self, sender: &[u8], command: &Command) -> (replies: Vec<Reply>)
        requires
            old(self).wf(),
        ensures
            final(self).wf(),
            final(self)@ == old(self)@.handle(sender@, command@),
            replies_view(replies@) == old(self)@.handle_replies(sender@, command@),
    {
        match command {
            Command::Cnct(name) => self.connect(name.as_slice()),
            Command::Start => self.start(sender).replies,
            Command::Fire { target, row, col } => self.fire(
                sender,
                target.as_slice(),
                *row,
                *col,
            ).replies,
            _ => {
                let mut replies: Vec<Reply> = Vec::new();
                replies.push(notice_reply(Notice::Unexpected));
                assert(replies_view(replies@) =~= seq![
                    msg_to_sender(Notice::Unexpected.spec_text()),
                ]);
                replies
            },
        }
    }

    /// Places the ship of a kind on the board of a player, during setup.
    ///
    /// Fails as the board's own placement does, and then changes nothing.
    pub fn place(&mut self, player: usize, kind: ShipType, cells: &[(usize, usize)]) -> (r: Result<
        (),
        PlacementError,
    >)
        requires
            old(self).wf(),
            player < old(self)@.players.len(),
            !old(self)@.started,
        ensures
            final(self).wf(),
            final(self)@ == old(self)@.place(player as int, kind, cells@),
            match r {
                Ok(_) => old(self)@.boards[player as int].placement_error(kind, cells@) is None,
                Err(e) => old(self)@.boards[player as int].placement_error(kind, cells@) == Some(
                    e,
                ),
            },
    {
        let ghost before = self@;
        let r = self.state[player].place(kind, cells);
        proof {
            let after = before.place(player as int, kind, cells@);
            self.state@[player as int].lemma_wf();
            assert(self@.boards =~= after.boards);
            assert(self@.players =~= after.players);
            lemma_place_wf(before, player as int, kind, cells@);
        }
        r
    }
}

} // verus!
