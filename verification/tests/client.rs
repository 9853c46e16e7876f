use rusty_battleship::battleship::Tile;
use rusty_battleship::client::{
    first_word, frame, ConnectError, ConnectionHandler, DisplayEvent, Handshake, Inbound,
};
use rusty_battleship::codec::Command;
use rusty_battleship::settings::Settings;

fn settings() -> Settings {
    Settings {
        username: "Alice".to_string(),
        host: "127.0.0.1".to_string(),
        port: "8080".to_string(),
    }
}

fn connection() -> ConnectionHandler {
    ConnectionHandler::connect(&settings(), Handshake::Sent).unwrap()
}

fn shown_msg(text: &[u8]) -> Inbound {
    Inbound::Display(DisplayEvent::Msg(text.to_vec()))
}

fn shown_alert(text: &[u8]) -> Inbound {
    Inbound::Display(DisplayEvent::Alert(text.to_vec()))
}

fn shown_end(text: &[u8]) -> Inbound {
    Inbound::Display(DisplayEvent::Disconnected(text.to_vec()))
}

#[test]
fn the_address_is_host_colon_port() {
    assert_eq!(settings().address(), "127.0.0.1:8080");
    let blank = Settings { username: String::new(), host: String::new(), port: String::new() };
    assert_eq!(blank.address(), ":");
}

#[test]
fn the_greeting_is_cnct_with_the_name() {
    assert_eq!(ConnectionHandler::greeting(&settings()), b"/cnct Alice".to_vec());
    let blank = Settings { username: String::new(), host: String::new(), port: String::new() };
    assert_eq!(ConnectionHandler::greeting(&blank), b"/cnct ".to_vec());
}

#[test]
fn the_opening_line_of_a_terminal_ends_in_a_newline() {
    assert_eq!(connection().opening_line(), b"/cnct Alice\n".to_vec());
}

#[test]
fn connect_fails_when_the_socket_does_not_open() {
    assert_eq!(
        ConnectionHandler::connect(&settings(), Handshake::Unreachable).err(),
        Some(ConnectError::Unreachable)
    );
}

#[test]
fn connect_fails_when_the_greeting_is_not_written() {
    assert_eq!(
        ConnectionHandler::connect(&settings(), Handshake::WriteFailed).err(),
        Some(ConnectError::Io)
    );
}

#[test]
fn a_new_connection_is_alive_under_the_user_s_name() {
    let conn = connection();
    assert!(conn.connected());
    assert_eq!(conn.username(), "Alice");
    assert_eq!(conn.username, "Alice");
}

#[test]
fn start_writes_the_start_line() {
    assert_eq!(connection().start(), b"/start".to_vec());
}

#[test]
fn fire_writes_target_row_and_column() {
    let conn = connection();
    assert_eq!(conn.fire(Tile::new(3, 4), "Bob".to_string()), b"/fire Bob 3 4".to_vec());
    assert_eq!(conn.fire(Tile { row: 0, column: 12 }, String::new()), b"/fire  0 12".to_vec());
}

#[test]
fn leave_writes_nothing() {
    assert_eq!(ConnectionHandler::leave(), Vec::<u8>::new());
}

#[test]
fn send_passes_the_line_on_while_alive() {
    let mut conn = connection();
    assert_eq!(conn.send(&"/start\n".to_string()), Some(b"/start\n".to_vec()));
    conn.listen(b"");
    assert_eq!(conn.send(&"/start\n".to_string()), None);
}

#[test]
fn a_disconnect_order_ends_the_connection() {
    let mut conn = connection();
    assert_eq!(conn.listen(b"/dscnct Game Over. You Lose!\n"), vec![shown_end(b"Game Over. You Lose!")]);
    assert!(!conn.connected());
}

#[test]
fn messages_and_alerts_are_shown() {
    let mut conn = connection();
    assert_eq!(conn.listen(b"/msg You hit a ship\n"), vec![shown_msg(b"You hit a ship")]);
    assert_eq!(
        conn.listen(b"/alrt Bob connected to the game\n"),
        vec![shown_alert(b"Bob connected to the game")]
    );
    assert!(conn.connected());
}

#[test]
fn lines_that_come_together_are_taken_apart() {
    let mut conn = connection();
    assert_eq!(
        conn.listen(b"/msg one\n/alrt two\n/msg three\n"),
        vec![shown_msg(b"one"), shown_alert(b"two"), shown_msg(b"three")]
    );
    assert!(conn.connected());
}

#[test]
fn a_line_that_comes_in_parts_is_put_together() {
    let mut conn = connection();
    assert_eq!(conn.listen(b"/ms"), Vec::<Inbound>::new());
    assert_eq!(conn.listen(b"g hel"), Vec::<Inbound>::new());
    assert_eq!(conn.listen(b"lo\n/al"), vec![shown_msg(b"hello")]);
    assert_eq!(conn.listen(b"rt x\n"), vec![shown_alert(b"x")]);
    assert_eq!(conn.listen(b"\n"), vec![Inbound::Unrecognized(Vec::new())]);
    assert!(conn.connected());
}

#[test]
fn nothing_is_taken_in_after_a_disconnect_order() {
    let mut conn = connection();
    assert_eq!(
        conn.listen(b"/msg one\n/dscnct bye\n/msg two\n/ms"),
        vec![shown_msg(b"one"), shown_end(b"bye")]
    );
    assert!(!conn.connected());
    assert_eq!(conn.listen(b"g three\n"), Vec::<Inbound>::new());
    assert_eq!(conn.listen(b"/msg four\n"), Vec::<Inbound>::new());
    assert_eq!(conn.listen(b""), Vec::<Inbound>::new());
    assert!(!conn.connected());
}

#[test]
fn the_end_of_the_stream_ends_the_connection() {
    let mut conn = connection();
    assert_eq!(conn.listen(b"/msg half"), Vec::<Inbound>::new());
    assert_eq!(conn.listen(b""), vec![shown_end(b"Server Disconnected.")]);
    assert!(!conn.connected());
    assert_eq!(conn.listen(b""), Vec::<Inbound>::new());
    assert_eq!(conn.listen(b" a line\n"), Vec::<Inbound>::new());
    assert!(!conn.connected());
}

#[test]
fn lines_a_client_has_no_use_for_are_handed_back() {
    let mut conn = connection();
    assert_eq!(
        conn.listen(b"/leave now\nhello\n/start\n/cnct Bob\n/fire Bob 1 2\n/msg ok\n"),
        vec![
            Inbound::Unrecognized(b"/leave".to_vec()),
            Inbound::Unrecognized(b"hello".to_vec()),
            Inbound::Unrecognized(b"/start".to_vec()),
            Inbound::Unrecognized(b"/cnct".to_vec()),
            Inbound::Unrecognized(b"/fire".to_vec()),
            shown_msg(b"ok"),
        ]
    );
    assert!(conn.connected());
}

#[test]
fn lines_that_do_not_decode_are_handed_back_whole() {
    let mut conn = connection();
    assert_eq!(
        conn.listen(b"/msg\n/fire Bob 3 x\n/dscnct\n/alrt still here\n"),
        vec![
            Inbound::Malformed(b"/msg".to_vec()),
            Inbound::Malformed(b"/fire Bob 3 x".to_vec()),
            Inbound::Malformed(b"/dscnct".to_vec()),
            shown_alert(b"still here"),
        ]
    );
    assert!(conn.connected());
}

#[test]
fn what_is_framed_is_heard() {
    let mut conn = connection();
    let mut wire = frame(&Command::Msg(b"a b  c".to_vec()));
    wire.extend(frame(&Command::Alrt(Vec::new())));
    wire.extend(frame(&Command::Dscnct(b"over".to_vec())));
    assert_eq!(wire, b"/msg a b  c\n/alrt \n/dscnct over\n".to_vec());
    assert_eq!(conn.listen(&wire), vec![shown_msg(b"a b  c"), shown_alert(b""), shown_end(b"over")]);
    assert!(!conn.connected());
}

#[test]
fn first_word_ends_at_the_first_space() {
    assert_eq!(first_word(&"/msg hello there".to_string()), 4);
    assert_eq!(first_word(&"/start".to_string()), 6);
    assert_eq!(first_word(&" x".to_string()), 0);
    assert_eq!(first_word(&String::new()), 0);
    assert_eq!(first_word(&"h\u{e9}llo w".to_string()), 6);
}
