//! The client's side of a connection: what it writes for each action of the
//! user, and what it makes of the bytes that the server sends.
//!
//! Nothing here touches a socket. The owner of the socket writes what
//! `greeting`, `start` and `fire` hand back, one command to a write and
//! without a newline, and feeds what it reads to `listen`, which frames the
//! stream by newlines.

use crate::battleship::Tile;
use crate::bytes::{
    append_bytes, copy_range, find_byte, first_index, lemma_first_index, lemma_first_index_joined,
};
use crate::codec::{
    decode, encode, lemma_decode_encode, spec_decode, spec_encode, token_of, well_formed, Command,
    CommandView, MalformedCommand, NEWLINE, SPACE,
};
use crate::settings::Settings;
use vstd::prelude::*;
use vstd::slice::*;
use vstd::string::*;
use vstd::utf8::*;

verus! {

/// What the user is shown.
#[derive(Debug, PartialEq, Eq)]
pub enum DisplayEvent {
    /// Informational text.
    Msg(Vec<u8>),
    /// A notice of a change of state.
    Alert(Vec<u8>),
    /// The connection is over, for the reason given.
    Disconnected(Vec<u8>),
}

/// What one line from the server comes to.
#[derive(Debug, PartialEq, Eq)]
pub enum Inbound {
    /// Something to show.
    Display(DisplayEvent),
    /// A line whose token a client has no use for; it carries the token.
    /// It is to be logged, and nothing else follows from it.
    Unrecognized(Vec<u8>),
    /// A line that does not fit the grammar of its token; it carries the
    /// line. It is to be logged, and nothing else follows from it.
    Malformed(Vec<u8>),
}

/// A display event as a mathematical value.
pub ghost enum DisplayEventView {
    Msg(Seq<u8>),
    Alert(Seq<u8>),
    Disconnected(Seq<u8>),
}

/// An inbound item as a mathematical value.
pub ghost enum InboundView {
    Display(DisplayEventView),
    Unrecognized(Seq<u8>),
    Malformed(Seq<u8>),
}

impl View for DisplayEvent {
    type V = DisplayEventView;

    open spec fn view(&self) -> DisplayEventView {
        match self {
            DisplayEvent::Msg(text) => DisplayEventView::Msg(text@),
            DisplayEvent::Alert(text) => DisplayEventView::Alert(text@),
            DisplayEvent::Disconnected(reason) => DisplayEventView::Disconnected(reason@),
        }
    }
}

impl View for Inbound {
    type V = InboundView;

    open spec fn view(&self) -> InboundView {
        match self {
            Inbound::Display(event) => InboundView::Display(event@),
            Inbound::Unrecognized(token) => InboundView::Unrecognized(token@),
            Inbound::Malformed(line) => InboundView::Malformed(line@),
        }
    }
}

/// The views of a run of inbound items.
pub open spec fn inbound_view(items: Seq<Inbound>) -> Seq<InboundView> {
    Seq::new(items.len(), |i: int| items[i]@)
}

/// Why a connection could not be made.
#[derive(Clone, Copy, PartialEq, Eq, Debug, Structural)]
pub enum ConnectError {
    /// The socket could not be opened.
    Unreachable,
    /// The greeting could not be written.
    Io,
}

/// How the attempt to open the socket and to write the greeting went.
#[derive(Clone, Copy, PartialEq, Eq, Debug, Structural)]
pub enum Handshake {
    /// The socket could not be opened.
    Unreachable,
    /// The socket is open and the greeting could not be written.
    WriteFailed,
    /// The greeting is on its way.
    Sent,
}

// ---------------------------------------------------------------------------
// The model
// ---------------------------------------------------------------------------

/// The line of a command as the listener takes it in: ended by a newline.
pub open spec fn spec_frame(c: CommandView) -> Seq<u8> {
    spec_encode(c).push(NEWLINE)
}

/// The reason shown when the stream ends without a `/dscnct`.
pub open spec fn end_of_stream_reason() -> Seq<u8> {
    "Server Disconnected.".spec_bytes()
}

/// What one line comes to: `/msg`, `/alrt` and `/dscnct` are shown; any
/// other token, known to the protocol or not, is handed back as not
/// recognized; a line that does not decode is handed back whole.
pub open spec fn effect_of(line: Seq<u8>) -> InboundView {
    match spec_decode(line) {
        Ok(CommandView::Msg(text)) => InboundView::Display(DisplayEventView::Msg(text)),
        Ok(CommandView::Alrt(text)) => InboundView::Display(DisplayEventView::Alert(text)),
        Ok(CommandView::Dscnct(reason)) => InboundView::Display(
            DisplayEventView::Disconnected(reason),
        ),
        Ok(_) => InboundView::Unrecognized(token_of(line)),
        Err(_) => InboundView::Malformed(line),
    }
}

/// Whether a line orders the client to disconnect.
pub open spec fn ends_connection(line: Seq<u8>) -> bool {
    spec_decode(line) matches Ok(CommandView::Dscnct(_))
}

/// What comes of a stretch of the stream.
pub ghost struct Heard {
    /// What each complete line came to, in order.
    pub events: Seq<InboundView>,
    /// The bytes after the last newline, kept for the next read.
    pub pending: Seq<u8>,
    /// Whether the connection is still alive.
    pub connected: bool,
}

/// Frames `data` by newlines and takes the lines in order, up to and
/// including the first that orders a disconnect. What follows such a line
/// is dropped; otherwise the bytes after the last newline stay pending.
pub open spec fn hear(data: Seq<u8>) -> Heard
    decreases data.len(),
{
    let i = first_index(data, NEWLINE);
    if 0 <= i < data.len() {
        let line = data.take(i);
        if ends_connection(line) {
            Heard { events: seq![effect_of(line)], pending: Seq::empty(), connected: false }
        } else {
            let rest = hear(data.skip(i + 1));
            Heard { events: seq![effect_of(line)] + rest.events, ..rest }
        }
    } else {
        Heard { events: Seq::empty(), pending: data, connected: true }
    }
}

/// A connection as a mathematical value.
pub ghost struct ConnectionView {
    /// Whether the connection is alive.
    pub connected: bool,
    /// The name that the user plays under.
    pub username: Seq<char>,
    /// The bytes of a line whose newline has not come yet.
    pub pending: Seq<u8>,
}

impl ConnectionView {
    /// The connection after a read that gave `received`.
    ///
    /// A dead connection stays dead and takes nothing in. A read of no
    /// bytes is the end of the stream and kills the connection. Any other
    /// read is heard after the bytes that were pending.
    pub open spec fn listen(self, received: Seq<u8>) -> ConnectionView {
        if !self.connected {
            self
        } else if received.len() == 0 {
            ConnectionView { connected: false, pending: Seq::empty(), ..self }
        } else {
            let heard = hear(self.pending + received);
            ConnectionView { connected: heard.connected, pending: heard.pending, ..self }
        }
    }

    /// What a read that gave `received` comes to.
    pub open spec fn heard(self, received: Seq<u8>) -> Seq<InboundView> {
        if !self.connected {
            Seq::empty()
        } else if received.len() == 0 {
            seq![InboundView::Display(DisplayEventView::Disconnected(end_of_stream_reason()))]
        } else {
            hear(self.pending + received).events
        }
    }
}

/// A command that is written and framed is heard as that command: one
/// line, nothing pending, and the connection dead exactly after `/dscnct`.
pub proof fn lemma_hear_framed(c: CommandView)
    requires
        well_formed(c),
        !spec_encode(c).contains(NEWLINE),
    ensures
        spec_decode(spec_encode(c)) == Ok::<CommandView, MalformedCommand>(c),
        hear(spec_frame(c)) == (Heard {
            events: seq![effect_of(spec_encode(c))],
            pending: Seq::empty(),
            connected: !(c is Dscnct),
        }),
{
    let line = spec_encode(c);
    let data = spec_frame(c);
    lemma_decode_encode(c);
    lemma_first_index_joined(line, NEWLINE, Seq::empty());
    assert(line.push(NEWLINE) + Seq::<u8>::empty() =~= data);
    assert(data.take(line.len() as int) == line);
    assert(data.skip(line.len() as int + 1) =~= Seq::<u8>::empty());
    assert(hear(Seq::<u8>::empty()).events =~= Seq::<InboundView>::empty());
    assert(hear(data).events =~= seq![effect_of(line)]);
}

/// A connection that has ended never comes back: whatever is read after,
/// it stays as it is and nothing comes of the read.
pub proof fn lemma_no_resurrection(c: ConnectionView, received: Seq<u8>)
    requires
        !c.connected,
    ensures
        c.listen(received) == c,
        c.heard(received) == Seq::<InboundView>::empty(),
{
}

/// Whatever is read, the name that the user plays under stays.
pub proof fn lemma_username_is_kept(c: ConnectionView, received: Seq<u8>)
    ensures
        c.listen(received).username == c.username,
{
}

// ---------------------------------------------------------------------------
// The connection
// ---------------------------------------------------------------------------

/// The state of one connection to the server.
pub struct ConnectionHandler {
    connected: bool,
    pub username: String,
    pending: Vec<u8>,
}

impl View for ConnectionHandler {
    type V = ConnectionView;

    closed spec fn view(&self) -> ConnectionView {
        ConnectionView {
            connected: self.connected,
            username: self.username@,
            pending: self.pending@,
        }
    }
}

/// Encodes a command and ends the line with a newline.
pub fn frame(c: &Command) -> (wire: Vec<u8>)
    ensures
        wire@ == spec_frame(c@),
{
    let mut wire = encode(c);
    wire.push(NEWLINE);
    wire
}

/// The bytes of a string.
fn bytes_of(s: &String) -> (bytes: Vec<u8>)
    ensures
        bytes@ == encode_utf8(s@),
{
    s.as_str().as_bytes_vec()
}

/// What one line comes to, and whether it ends the connection.
fn interpret(line: &[u8]) -> (r: (Inbound, bool))
    ensures
        r.0@ == effect_of(line@),
        r.1 == ends_connection(line@),
{
    match decode(line) {
        Ok(Command::Msg(text)) => (Inbound::Display(DisplayEvent::Msg(text)), false),
        Ok(Command::Alrt(text)) => (Inbound::Display(DisplayEvent::Alert(text)), false),
        Ok(Command::Dscnct(reason)) => (Inbound::Display(DisplayEvent::Disconnected(reason)), true),
        Ok(_) => {
            let i = find_byte(line, SPACE);
            proof {
                lemma_first_index(line@, SPACE);
            }
            (Inbound::Unrecognized(copy_range(line, 0, i)), false)
        },
        Err(_) => (Inbound::Malformed(slice_to_vec(line)), false),
    }
}

impl ConnectionHandler {
    /// The greeting that a client sends first: `/cnct`, a space and the
    /// user's name, and no newline.
    pub fn greeting(settings: &Settings) -> (wire: Vec<u8>)
        ensures
            wire@ == spec_encode(CommandView::Cnct(encode_utf8(settings.username@))),
    {
        encode(&Command::Cnct(bytes_of(&settings.username)))
    }

    /// The line that a client on a terminal opens with, before it passes on
    /// what the user types: `/cnct` with the name of the connection, ended
    /// by a newline as the typed lines are.
    pub fn opening_line(&self) -> (wire: Vec<u8>)
        ensures
            wire@ == spec_frame(CommandView::Cnct(encode_utf8(self@.username))),
    {
        frame(&Command::Cnct(bytes_of(&self.username)))
    }

    /// The connection that comes of an attempt to reach the server.
    ///
    /// Fails with `Unreachable` where the socket could not be opened and
    /// with `Io` where the greeting could not be written. Otherwise the
    /// connection is alive, under the user's name, with nothing pending.
    pub fn connect(settings: &Settings, handshake: Handshake) -> (r: Result<
        ConnectionHandler,
        ConnectError,
    >)
        ensures
            match handshake {
                Handshake::Unreachable => r == Err::<ConnectionHandler, ConnectError>(
                    ConnectError::Unreachable,
                ),
                Handshake::WriteFailed => r == Err::<ConnectionHandler, ConnectError>(
                    ConnectError::Io,
                ),
                Handshake::Sent => r is Ok && r->Ok_0@ == (ConnectionView {
                    connected: true,
                    username: settings.username@,
                    pending: Seq::empty(),
                }),
            },
    {
        match handshake {
            Handshake::Unreachable => Err(ConnectError::Unreachable),
            Handshake::WriteFailed => Err(ConnectError::Io),
            Handshake::Sent => Ok(
                ConnectionHandler {
                    connected: true,
                    username: settings.username.clone(),
                    pending: Vec::new(),
                },
            ),
        }
    }

    /// The name that the user plays under.
    pub fn username(&self) -> (name: &String)
        ensures
            name@ == self@.username,
    {
        &self.username
    }

    /// Whether the connection is alive.
    pub fn connected(&self) -> (alive: bool)
        ensures
            alive == self@.connected,
    {
        self.connected
    }

    /// What to write to shoot at a tile of the named player's board:
    /// `/fire` with the name, the row and the column, parted by single
    /// spaces, and no newline.
    pub fn fire(&self, t: Tile, username: String) -> (wire: Vec<u8>)
        ensures
            wire@ == spec_encode(
                CommandView::Fire { target: encode_utf8(username@), row: t.row, col: t.column },
            ),
    {
        encode(&Command::Fire { target: bytes_of(&username), row: t.row, col: t.column })
    }

    /// What to write to leave: nothing. The socket is closed on this side,
    /// and the end of the stream then ends the connection.
    pub fn leave() -> (wire: Vec<u8>)
        ensures
            wire@ == Seq::<u8>::empty(),
    {
        Vec::new()
    }

    /// What to write to ask for the game to start: `/start` and nothing
    /// else.
    pub fn start(&self) -> (wire: Vec<u8>)
        ensures
            wire@ == spec_encode(CommandView::Start),
    {
        encode(&Command::Start)
    }

    /// What to write for a line that the user typed: its bytes while the
    /// connection is alive, and nothing once it is dead.
    pub fn send(&self, input: &String) -> (wire: Option<Vec<u8>>)
        ensures
            wire is Some <==> self@.connected,
            wire matches Some(bytes) ==> bytes@ == encode_utf8(input@),
    {
        if self.connected {
            Some(bytes_of(input))
        } else {
            None
        }
    }

    /// Takes in what one read from the socket gave.
    ///
    /// The bytes are framed by newlines, after what was pending, and each
    /// complete line is decoded and handed back as what it comes to, in
    /// order. `/dscnct` ends the connection, and so does a read of no
    /// bytes, which is the end of the stream. A connection that has ended
    /// never comes back: it takes nothing in and hands nothing back.
    pub fn listen(&mut self, received: &[u8]) -> (events: Vec<Inbound>)
        ensures
            final(self)@ == old(self)@.listen(received@),
            inbound_view(events@) == old(self)@.heard(received@),
            !old(self)@.connected ==> !final(self)@.connected,
    {
        let mut events: Vec<Inbound> = Vec::new();
        if !self.connected {
            assert(inbound_view(events@) =~= Seq::<InboundView>::empty());
            return events;
        }
        if received.len() == 0 {
            self.connected = false;
            self.pending = Vec::new();
            events.push(
                Inbound::Display(DisplayEvent::Disconnected("Server Disconnected.".as_bytes_vec())),
            );
            assert(inbound_view(events@) =~= old(self)@.heard(received@));
            return events;
        }
        let mut data: Vec<u8> = Vec::new();
        append_bytes(&mut data, self.pending.as_slice());
        append_bytes(&mut data, received);
        let ghost whole = data@;
        assert(whole =~= old(self)@.pending + received@);
        let n = data.len();
        let mut pos: usize = 0;
        assert(whole.skip(0) =~= whole);
        assert(inbound_view(events@) + hear(whole).events =~= hear(whole).events);
        loop
            invariant
                n == whole.len(),
                data@ == whole,
                pos <= n,
                hear(whole).events == inbound_view(events@) + hear(whole.skip(pos as int)).events,
                hear(whole).pending == hear(whole.skip(pos as int)).pending,
                hear(whole).connected == hear(whole.skip(pos as int)).connected,
                self.connected,
                self.username == old(self).username,
                whole == old(self)@.pending + received@,
                old(self)@.connected,
                received@.len() > 0,
            decreases n - pos,
        {
            let rest = slice_subrange(data.as_slice(), pos, n);
            let ghost tail = whole.skip(pos as int);
            assert(rest@ =~= tail);
            let i = find_byte(rest, NEWLINE);
            proof {
                lemma_first_index(tail, NEWLINE);
            }
            if i == rest.len() {
                self.pending = slice_to_vec(rest);
                return events;
            }
            let line = slice_subrange(rest, 0, i);
            assert(line@ =~= tail.take(i as int));
            let (item, last) = interpret(line);
            let ghost done = inbound_view(events@);
            events.push(item);
            assert(inbound_view(events@) =~= done.push(effect_of(line@)));
            if last {
                self.connected = false;
                self.pending = Vec::new();
                assert(hear(whole).events =~= inbound_view(events@));
                return events;
            }
            proof {
                assert(tail.skip(i as int + 1) =~= whole.skip(pos as int + i as int + 1));
                assert(hear(whole).events =~= inbound_view(events@) + hear(
                    whole.skip(pos as int + i as int + 1),
                ).events);
            }
            pos = pos + i + 1;
        }
    }
}

/// The index of the first space in a string, counted in bytes: where its
/// first word ends. The length of the string where it has no space.
pub fn first_word(string: &String) -> (index: usize)
    ensures
        index == first_index(encode_utf8(string@), SPACE),
        index <= encode_utf8(string@).len(),
{
    let bytes = string.as_str().as_bytes();
    proof {
        lemma_first_index(bytes@, SPACE);
    }
    find_byte(bytes, SPACE)
}

} // verus!
