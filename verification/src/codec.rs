//! The line-oriented wire format: one command per line, a token that begins
//! with `/`, one space, and a payload whose shape depends on the token.
//!
//! | token     | payload                 |
//! |-----------|-------------------------|
//! | `/cnct`   | user name               |
//! | `/start`  | none                    |
//! | `/fire`   | target, row and column  |
//! | `/msg`    | text, rest of the line  |
//! | `/alrt`   | text, rest of the line  |
//! | `/dscnct` | text, rest of the line  |

use crate::bytes::{
    append_bytes, bytes_eq, copy_range, find_byte, first_index, lemma_first_index,
    lemma_first_index_joined,
};
use vstd::prelude::*;
use vstd::slice::*;
use vstd::string::*;

verus! {

/// The byte that parts a token from its payload, and the fields of `/fire`.
pub const SPACE: u8 = 32;

/// The byte that ends a line on the wire.
pub const NEWLINE: u8 = 10;

/// One command of the protocol.
#[derive(Debug, PartialEq, Eq)]
pub enum Command {
    /// `/cnct <username>`: register a session under a name.
    Cnct(Vec<u8>),
    /// `/start`: ask for the game to begin.
    Start,
    /// `/fire <target> <row> <col>`: shoot at a cell of the target's board.
    Fire { target: Vec<u8>, row: usize, col: usize },
    /// `/msg <text>`: informational text.
    Msg(Vec<u8>),
    /// `/alrt <text>`: notice of a change of state.
    Alrt(Vec<u8>),
    /// `/dscnct <text>`: forced termination, with the reason.
    Dscnct(Vec<u8>),
    /// A line whose token is none of the six above; it carries the token.
    Unrecognized(Vec<u8>),
}

/// A command as a mathematical value.
pub ghost enum CommandView {
    Cnct(Seq<u8>),
    Start,
    Fire { target: Seq<u8>, row: usize, col: usize },
    Msg(Seq<u8>),
    Alrt(Seq<u8>),
    Dscnct(Seq<u8>),
    Unrecognized(Seq<u8>),
}

impl View for Command {
    type V = CommandView;

    open spec fn view(&self) -> CommandView {
        match self {
            Command::Cnct(name) => CommandView::Cnct(name@),
            Command::Start => CommandView::Start,
            Command::Fire { target, row, col } => CommandView::Fire {
                target: target@,
                row: *row,
                col: *col,
            },
            Command::Msg(text) => CommandView::Msg(text@),
            Command::Alrt(text) => CommandView::Alrt(text@),
            Command::Dscnct(text) => CommandView::Dscnct(text@),
            Command::Unrecognized(token) => CommandView::Unrecognized(token@),
        }
    }
}

/// The error of a line that names a known token and does not fit its grammar.
#[derive(Clone, Copy, Debug, PartialEq, Eq)]
pub struct MalformedCommand;

// ---------------------------------------------------------------------------
// Tokens
// ---------------------------------------------------------------------------

/// The token of the command that registers a player.
pub open spec fn token_cnct() -> Seq<u8> {
    "/cnct".spec_bytes()
}

/// The token of the command that asks for the game to begin.
pub open spec fn token_start() -> Seq<u8> {
    "/start".spec_bytes()
}

/// The token of the command that shoots at a cell.
pub open spec fn token_fire() -> Seq<u8> {
    "/fire".spec_bytes()
}

/// The token of the command that carries informational text.
pub open spec fn token_msg() -> Seq<u8> {
    "/msg".spec_bytes()
}

/// The token of the command that carries a notice of a change of state.
pub open spec fn token_alrt() -> Seq<u8> {
    "/alrt".spec_bytes()
}

/// The token of the command that ends the connection.
pub open spec fn token_dscnct() -> Seq<u8> {
    "/dscnct".spec_bytes()
}

/// Whether `t` is one of the six tokens of the protocol.
pub open spec fn is_token(t: Seq<u8>) -> bool {
    t == token_cnct() || t == token_start() || t == token_fire() || t == token_msg() || t
        == token_alrt() || t == token_dscnct()
}

/// The bytes of the six tokens.
pub proof fn lemma_token_bytes()
    ensures
        token_cnct() == seq![47u8, 99u8, 110u8, 99u8, 116u8],
        token_start() == seq![47u8, 115u8, 116u8, 97u8, 114u8, 116u8],
        token_fire() == seq![47u8, 102u8, 105u8, 114u8, 101u8],
        token_msg() == seq![47u8, 109u8, 115u8, 103u8],
        token_alrt() == seq![47u8, 97u8, 108u8, 114u8, 116u8],
        token_dscnct() == seq![47u8, 100u8, 115u8, 99u8, 110u8, 99u8, 116u8],
{
    reveal_strlit("/cnct");
    reveal_strlit("/start");
    reveal_strlit("/fire");
    reveal_strlit("/msg");
    reveal_strlit("/alrt");
    reveal_strlit("/dscnct");
    is_ascii_spec_bytes("/cnct");
    is_ascii_spec_bytes("/start");
    is_ascii_spec_bytes("/fire");
    is_ascii_spec_bytes("/msg");
    is_ascii_spec_bytes("/alrt");
    is_ascii_spec_bytes("/dscnct");
    assert(is_ascii("/cnct") && "/cnct"@.len() == 5);
    assert(is_ascii("/start") && "/start"@.len() == 6);
    assert(is_ascii("/fire") && "/fire"@.len() == 5);
    assert(is_ascii("/msg") && "/msg"@.len() == 4);
    assert(is_ascii("/alrt") && "/alrt"@.len() == 5);
    assert(is_ascii("/dscnct") && "/dscnct"@.len() == 7);
}

/// No token holds a space, and no two tokens are equal.
pub proof fn lemma_tokens_apart()
    ensures
        forall|t: Seq<u8>| is_token(t) ==> !t.contains(SPACE),
        token_start() != token_cnct(),
        token_fire() != token_start() && token_fire() != token_cnct(),
        token_msg() != token_start() && token_msg() != token_cnct() && token_msg() != token_fire(),
        token_alrt() != token_start() && token_alrt() != token_cnct() && token_alrt()
            != token_fire() && token_alrt() != token_msg(),
        token_dscnct() != token_start() && token_dscnct() != token_cnct() && token_dscnct()
            != token_fire() && token_dscnct() != token_msg() && token_dscnct() != token_alrt(),
{
    lemma_token_bytes();
    assert(token_cnct()[1] == 99u8 && token_start()[1] == 115u8 && token_fire()[1] == 102u8
        && token_msg()[1] == 109u8 && token_alrt()[1] == 97u8 && token_dscnct()[1] == 100u8);
    assert forall|t: Seq<u8>| is_token(t) implies !t.contains(SPACE) by {
        assert forall|i: int| 0 <= i < t.len() implies t[i] != SPACE by {
            if t == token_cnct() {
                assert(t[0] == 47 && t[1] == 99 && t[2] == 110 && t[3] == 99 && t[4] == 116);
            } else if t == token_start() {
                assert(t[0] == 47 && t[1] == 115 && t[2] == 116 && t[3] == 97 && t[4] == 114
                    && t[5] == 116);
            } else if t == token_fire() {
                assert(t[0] == 47 && t[1] == 102 && t[2] == 105 && t[3] == 114 && t[4] == 101);
            } else if t == token_msg() {
                assert(t[0] == 47 && t[1] == 109 && t[2] == 115 && t[3] == 103);
            } else if t == token_alrt() {
                assert(t[0] == 47 && t[1] == 97 && t[2] == 108 && t[3] == 114 && t[4] == 116);
            } else {
                assert(t[0] == 47 && t[1] == 100 && t[2] == 115 && t[3] == 99 && t[4] == 110
                    && t[5] == 99 && t[6] == 116);
            }
        }
    }
}

// ---------------------------------------------------------------------------
// Unsigned decimal numbers
// ---------------------------------------------------------------------------

/// Whether `b` is one of the ASCII digits `0` to `9`.
pub open spec fn is_digit(b: u8) -> bool {
    48 <= b <= 57
}

/// Whether every byte of `s` is an ASCII digit.
pub open spec fn all_digits(s: Seq<u8>) -> bool {
    forall|i: int| 0 <= i < s.len() ==> is_digit(#[trigger] s[i])
}

/// The number that the digits of `s` write in base ten.
pub open spec fn decimal_value(s: Seq<u8>) -> nat
    decreases s.len(),
{
    if s.len() == 0 {
        0
    } else {
        (10 * decimal_value(s.drop_last()) + (s.last() - 48)) as nat
    }
}

/// The shortest way to write `n` in base ten.
pub open spec fn decimal_digits(n: nat) -> Seq<u8>
    decreases n,
{
    if n < 10 {
        seq![(48 + n) as u8]
    } else {
        decimal_digits(n / 10).push((48 + n % 10) as u8)
    }
}

/// What a field of digits stands for: its value, or nothing where the field
/// is empty, holds anything but digits, or writes a number past `usize::MAX`.
pub open spec fn spec_parse_uint(s: Seq<u8>) -> Option<usize> {
    if s.len() > 0 && all_digits(s) && decimal_value(s) <= usize::MAX {
        Some(decimal_value(s) as usize)
    } else {
        None
    }
}

/// Among digits, a prefix never writes a larger number than the whole.
pub proof fn lemma_decimal_value_prefix(s: Seq<u8>, k: int)
    requires
        all_digits(s),
        0 <= k <= s.len(),
    ensures
        decimal_value(s.take(k)) <= decimal_value(s),
    decreases s.len(),
{
    if k == s.len() {
        assert(s.take(k) =~= s);
    } else {
        let t = s.drop_last();
        assert(t.take(k) =~= s.take(k));
        assert(is_digit(s[s.len() - 1]));
        lemma_decimal_value_prefix(t, k);
    }
}

/// `decimal_digits(n)` is a non-empty run of digits that writes `n`.
pub proof fn lemma_decimal_digits(n: nat)
    ensures
        decimal_digits(n).len() > 0,
        all_digits(decimal_digits(n)),
        decimal_value(decimal_digits(n)) == n,
        !decimal_digits(n).contains(SPACE),
        !decimal_digits(n).contains(NEWLINE),
    decreases n,
{
    let s = decimal_digits(n);
    if n < 10 {
        assert(s.drop_last() =~= Seq::<u8>::empty());
        assert(decimal_value(s.drop_last()) == 0);
    } else {
        lemma_decimal_digits(n / 10);
        assert(s.drop_last() =~= decimal_digits(n / 10));
        assert(s.last() == (48 + n % 10) as u8);
        assert forall|i: int| 0 <= i < s.len() implies is_digit(#[trigger] s[i]) by {
            if i < s.len() - 1 {
                assert(s[i] == decimal_digits(n / 10)[i]);
            }
        }
    }
}

/// Reads a field of decimal digits.
pub fn parse_uint(s: &[u8]) -> (r: Option<usize>)
    ensures
        r == spec_parse_uint(s@),
{
    if s.len() == 0 {
        return None;
    }
    let mut acc: usize = 0;
    let mut i: usize = 0;
    while i < s.len()
        invariant
            i <= s@.len(),
            all_digits(s@.take(i as int)),
            acc == decimal_value(s@.take(i as int)),
        decreases s@.len() - i,
    {
        let b = s[i];
        if b < 48 || b > 57 {
            assert(!is_digit(s@[i as int]));
            return None;
        }
        let d: usize = (b - 48) as usize;
        proof {
            let t = s@.take(i as int + 1);
            assert(t.drop_last() =~= s@.take(i as int));
            assert(t.last() == b);
            assert forall|j: int| 0 <= j < t.len() implies is_digit(#[trigger] t[j]) by {
                if j < i {
                    assert(t[j] == s@.take(i as int)[j]);
                }
            }
            if all_digits(s@) {
                lemma_decimal_value_prefix(s@, i as int + 1);
            }
        }
        if acc > (usize::MAX - d) / 10 {
            return None;
        }
        acc = acc * 10 + d;
        i += 1;
    }
    assert(s@.take(s@.len() as int) =~= s@);
    Some(acc)
}

/// Writes `n` in base ten.
pub fn format_uint(n: usize) -> (digits: Vec<u8>)
    ensures
        digits@ == decimal_digits(n as nat),
    decreases n,
{
    if n < 10 {
        let mut digits: Vec<u8> = Vec::new();
        digits.push(48 + n as u8);
        assert(digits@ =~= decimal_digits(n as nat));
        digits
    } else {
        let mut digits = format_uint(n / 10);
        digits.push(48 + (n % 10) as u8);
        digits
    }
}

// ---------------------------------------------------------------------------
// Lines
// ---------------------------------------------------------------------------

/// The bytes of `line` before its first space: all of it where it has none.
pub open spec fn token_of(line: Seq<u8>) -> Seq<u8> {
    line.take(first_index(line, SPACE))
}

/// The bytes of `line` after its first space, if it has one.
pub open spec fn payload_of(line: Seq<u8>) -> Option<Seq<u8>> {
    let i = first_index(line, SPACE);
    if i < line.len() {
        Some(line.skip(i + 1))
    } else {
        None
    }
}

/// `head`, one space, `tail`.
pub open spec fn joined(head: Seq<u8>, tail: Seq<u8>) -> Seq<u8> {
    head.push(SPACE) + tail
}

/// What the payload of `/fire` decodes to: exactly three fields parted by
/// single spaces, of which the second and the third are unsigned decimal
/// numbers.
pub open spec fn spec_decode_fire(payload: Seq<u8>) -> Result<CommandView, MalformedCommand> {
    match payload_of(payload) {
        None => Err(MalformedCommand),
        Some(rest) => match payload_of(rest) {
            None => Err(MalformedCommand),
            Some(last) => match (spec_parse_uint(token_of(rest)), spec_parse_uint(last)) {
                (Some(row), Some(col)) => Ok(
                    CommandView::Fire { target: token_of(payload), row, col },
                ),
                _ => Err(MalformedCommand),
            },
        },
    }
}

/// What a line decodes to.
///
/// The line is split at its first space only. `/start` stands alone, and
/// whatever follows it is ignored. The other five tokens need the space and
/// a payload after it, which may be empty text. A token outside the table is
/// handed back as `Unrecognized`.
pub open spec fn spec_decode(line: Seq<u8>) -> Result<CommandView, MalformedCommand> {
    let token = token_of(line);
    let payload = payload_of(line);
    if token == token_start() {
        Ok(CommandView::Start)
    } else if token == token_cnct() {
        match payload {
            Some(name) => Ok(CommandView::Cnct(name)),
            None => Err(MalformedCommand),
        }
    } else if token == token_fire() {
        match payload {
            Some(fields) => spec_decode_fire(fields),
            None => Err(MalformedCommand),
        }
    } else if token == token_msg() {
        match payload {
            Some(text) => Ok(CommandView::Msg(text)),
            None => Err(MalformedCommand),
        }
    } else if token == token_alrt() {
        match payload {
            Some(text) => Ok(CommandView::Alrt(text)),
            None => Err(MalformedCommand),
        }
    } else if token == token_dscnct() {
        match payload {
            Some(text) => Ok(CommandView::Dscnct(text)),
            None => Err(MalformedCommand),
        }
    } else {
        Ok(CommandView::Unrecognized(token))
    }
}

/// The line that a command is written as, without the newline.
pub open spec fn spec_encode(c: CommandView) -> Seq<u8> {
    match c {
        CommandView::Cnct(name) => joined(token_cnct(), name),
        CommandView::Start => token_start(),
        CommandView::Fire { target, row, col } => joined(
            token_fire(),
            joined(target, joined(decimal_digits(row as nat), decimal_digits(col as nat))),
        ),
        CommandView::Msg(text) => joined(token_msg(), text),
        CommandView::Alrt(text) => joined(token_alrt(), text),
        CommandView::Dscnct(text) => joined(token_dscnct(), text),
        CommandView::Unrecognized(token) => token,
    }
}

/// The commands that survive a round trip: the target of `/fire` holds no
/// space, and an unrecognized token holds none and is no token of the table.
pub open spec fn well_formed(c: CommandView) -> bool {
    match c {
        CommandView::Fire { target, .. } => !target.contains(SPACE),
        CommandView::Unrecognized(token) => !token.contains(SPACE) && !is_token(token),
        _ => true,
    }
}

/// Splitting `head`, a space and `tail` gives back `head` and `tail`, where
/// `head` holds no space.
pub proof fn lemma_split_joined(head: Seq<u8>, tail: Seq<u8>)
    requires
        !head.contains(SPACE),
    ensures
        token_of(joined(head, tail)) == head,
        payload_of(joined(head, tail)) == Some(tail),
{
    lemma_first_index_joined(head, SPACE, tail);
}

/// A line without a space is its own token and has no payload.
pub proof fn lemma_split_bare(line: Seq<u8>)
    requires
        !line.contains(SPACE),
    ensures
        token_of(line) == line,
        payload_of(line) is None,
{
    lemma_first_index(line, SPACE);
    assert(line.take(line.len() as int) =~= line);
}

/// Round trip: decoding the line that a well-formed command is written as
/// gives that command back.
pub proof fn lemma_decode_encode(c: CommandView)
    requires
        well_formed(c),
    ensures
        spec_decode(spec_encode(c)) == Ok::<CommandView, MalformedCommand>(c),
{
    lemma_tokens_apart();
    match c {
        CommandView::Cnct(name) => {
            assert(is_token(token_cnct()));
            lemma_split_joined(token_cnct(), name);
        },
        CommandView::Start => {
            assert(is_token(token_start()));
            lemma_split_bare(token_start());
        },
        CommandView::Fire { target, row, col } => {
            assert(is_token(token_fire()));
            let r = decimal_digits(row as nat);
            let k = decimal_digits(col as nat);
            lemma_decimal_digits(row as nat);
            lemma_decimal_digits(col as nat);
            lemma_split_joined(token_fire(), joined(target, joined(r, k)));
            lemma_split_joined(target, joined(r, k));
            lemma_split_joined(r, k);
        },
        CommandView::Msg(text) => {
            assert(is_token(token_msg()));
            lemma_split_joined(token_msg(), text);
        },
        CommandView::Alrt(text) => {
            assert(is_token(token_alrt()));
            lemma_split_joined(token_alrt(), text);
        },
        CommandView::Dscnct(text) => {
            assert(is_token(token_dscnct()));
            lemma_split_joined(token_dscnct(), text);
        },
        CommandView::Unrecognized(token) => {
            lemma_split_bare(token);
        },
    }
}

/// Splits a line at its first space: where the token ends, and whether a
/// payload follows.
fn split(line: &[u8]) -> (r: (usize, bool))
    ensures
        r.0 <= line@.len(),
        line@.take(r.0 as int) == token_of(line@),
        r.1 == (payload_of(line@) is Some),
        r.1 ==> r.0 < line@.len() && payload_of(line@) == Some(line@.skip(r.0 + 1)),
{
    let i = find_byte(line, SPACE);
    proof {
        lemma_first_index(line@, SPACE);
    }
    (i, i < line.len())
}

/// Decodes the payload of `/fire`.
fn decode_fire(payload: &[u8]) -> (r: Result<Command, MalformedCommand>)
    ensures
        match r {
            Ok(c) => spec_decode_fire(payload@) == Ok::<CommandView, MalformedCommand>(c@),
            Err(_) => spec_decode_fire(payload@) is Err,
        },
{
    let (a, more) = split(payload);
    if !more {
        return Err(MalformedCommand);
    }
    let n = payload.len();
    let rest = slice_subrange(payload, a + 1, n);
    let (b, last) = split(rest);
    if !last {
        return Err(MalformedCommand);
    }
    let m = rest.len();
    let row = parse_uint(slice_subrange(rest, 0, b));
    let col = parse_uint(slice_subrange(rest, b + 1, m));
    match (row, col) {
        (Some(row), Some(col)) => Ok(
            Command::Fire { target: copy_range(payload, 0, a), row, col },
        ),
        _ => Err(MalformedCommand),
    }
}

/// Decodes one line, given without its newline.
///
/// Fails on a known token whose payload is missing, and on a `/fire` whose
/// payload is not a target and two unsigned decimal numbers.
pub fn decode(line: &[u8]) -> (r: Result<Command, MalformedCommand>)
    ensures
        match r {
            Ok(c) => spec_decode(line@) == Ok::<CommandView, MalformedCommand>(c@),
            Err(_) => spec_decode(line@) is Err,
        },
{
    let (i, more) = split(line);
    let token = slice_subrange(line, 0, i);
    if bytes_eq(token, "/start".as_bytes()) {
        return Ok(Command::Start);
    }
    let cnct = bytes_eq(token, "/cnct".as_bytes());
    let fire = !cnct && bytes_eq(token, "/fire".as_bytes());
    let msg = !cnct && !fire && bytes_eq(token, "/msg".as_bytes());
    let alrt = !cnct && !fire && !msg && bytes_eq(token, "/alrt".as_bytes());
    let dscnct = !cnct && !fire && !msg && !alrt && bytes_eq(token, "/dscnct".as_bytes());
    if !(cnct || fire || msg || alrt || dscnct) {
        return Ok(Command::Unrecognized(slice_to_vec(token)));
    }
    if !more {
        return Err(MalformedCommand);
    }
    let n = line.len();
    let payload = slice_subrange(line, i + 1, n);
    if cnct {
        Ok(Command::Cnct(slice_to_vec(payload)))
    } else if fire {
        decode_fire(payload)
    } else if msg {
        Ok(Command::Msg(slice_to_vec(payload)))
    } else if alrt {
        Ok(Command::Alrt(slice_to_vec(payload)))
    } else {
        Ok(Command::Dscnct(slice_to_vec(payload)))
    }
}

/// A token, a space and a payload.
fn join(token: &str, payload: &[u8]) -> (line: Vec<u8>)
    ensures
        line@ == joined(token.spec_bytes(), payload@),
{
    let mut line = token.as_bytes_vec();
    line.push(SPACE);
    append_bytes(&mut line, payload);
    line
}

/// Encodes a command as one line, without the newline.
pub fn encode(c: &Command) -> (line: Vec<u8>)
    ensures
        line@ == spec_encode(c@),
{
    match c {
        Command::Cnct(name) => join("/cnct", name.as_slice()),
        Command::Start => "/start".as_bytes_vec(),
        Command::Fire { target, row, col } => {
            let mut fields: Vec<u8> = Vec::new();
            append_bytes(&mut fields, target.as_slice());
            fields.push(SPACE);
            let r = format_uint(*row);
            append_bytes(&mut fields, r.as_slice());
            fields.push(SPACE);
            let k = format_uint(*col);
            append_bytes(&mut fields, k.as_slice());
            assert(fields@ =~= joined(target@, joined(r@, k@)));
            join("/fire", fields.as_slice())
        },
        Command::Msg(text) => join("/msg", text.as_slice()),
        Command::Alrt(text) => join("/alrt", text.as_slice()),
        Command::Dscnct(text) => join("/dscnct", text.as_slice()),
        Command::Unrecognized(token) => {
            let mut line: Vec<u8> = Vec::new();
            append_bytes(&mut line, token.as_slice());
            assert(line@ =~= token@);
            line
        },
    }
}

} // verus!
