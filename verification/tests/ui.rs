use rusty_battleship::battleship::{board_tiles, GameInfo, Message, Request, Tile};
use rusty_battleship::client::{ConnectionHandler, Handshake};
use rusty_battleship::settings::Settings;

fn connection() -> ConnectionHandler {
    let settings = Settings {
        username: "Alice".to_string(),
        host: "localhost".to_string(),
        port: "8080".to_string(),
    };
    ConnectionHandler::connect(&settings, Handshake::Sent).unwrap()
}

#[test]
fn a_new_game_is_not_joined() {
    let game = GameInfo::default();
    assert!(!game.is_joined());
    assert_eq!(game.selected_tile(), Tile { row: 0, column: 0 });
    assert_eq!(game.username(), "");
    assert_eq!(game.my_board, "");
    assert_eq!(game.opponent_label(), "Player 2");
}

#[test]
fn join_asks_for_a_connection() {
    let mut game = GameInfo::default();
    assert_eq!(game.update(Message::JOIN), Request::Connect);
    assert!(!game.is_joined());
    game.joined(connection());
    assert!(game.is_joined());
    assert_eq!(game.username(), "Alice");
}

#[test]
fn nothing_is_written_without_a_connection() {
    let mut game = GameInfo::default();
    assert_eq!(game.update(Message::START), Request::Nothing);
    assert_eq!(game.update(Message::FIRE), Request::Nothing);
    assert_eq!(game.update(Message::LEAVE), Request::Nothing);
}

#[test]
fn start_and_fire_write_their_lines() {
    let mut game = GameInfo::default();
    game.joined(connection());
    assert_eq!(game.update(Message::START), Request::Write(b"/start".to_vec()));
    game.set_opponent("Bob".to_string());
    assert_eq!(game.opponent_label(), "Bob");
    assert_eq!(game.update(Message::BoardClick(Tile::new(3, 4))), Request::Nothing);
    assert_eq!(game.selected_tile(), Tile { row: 3, column: 4 });
    assert_eq!(game.update(Message::FIRE), Request::Write(b"/fire Bob 3 4".to_vec()));
    assert_eq!(game.update(Message::BoardClick(Tile::new(9, 0))), Request::Nothing);
    assert_eq!(game.update(Message::FIRE), Request::Write(b"/fire Bob 9 0".to_vec()));
}

#[test]
fn leave_closes_the_socket() {
    let mut game = GameInfo::default();
    game.joined(connection());
    assert_eq!(game.update(Message::LEAVE), Request::Close);
    assert!(game.is_joined());
}

#[test]
fn the_sign_of_joining_is_taken_note_of() {
    let mut game = GameInfo::default();
    assert_eq!(game.update(Message::EventOccurred), Request::Nothing);
    assert!(game.is_joined());
    assert_eq!(game.update(Message::START), Request::Nothing);
}

#[test]
fn the_tiles_of_a_board() {
    let tiles = board_tiles();
    assert_eq!(tiles.len(), 10);
    for (i, row) in tiles.iter().enumerate() {
        assert_eq!(row.len(), 10);
        for (j, tile) in row.iter().enumerate() {
            assert_eq!(*tile, Tile { row: i, column: j });
        }
    }
}
