use rusty_battleship::bytes::{append_bytes, bytes_eq, copy_range, find_byte};
use rusty_battleship::codec::{decode, encode, format_uint, parse_uint, Command, MalformedCommand};

fn round_trip(c: Command) {
    let line = encode(&c);
    assert_eq!(decode(&line), Ok(c));
}

#[test]
fn decode_fire_with_two_numbers() {
    assert_eq!(
        decode(b"/fire Bob 3 4"),
        Ok(Command::Fire { target: b"Bob".to_vec(), row: 3, col: 4 })
    );
}

#[test]
fn decode_fire_with_a_letter_for_a_number() {
    assert_eq!(decode(b"/fire Bob 3 x"), Err(MalformedCommand));
    assert_eq!(decode(b"/fire Bob x 3"), Err(MalformedCommand));
}

#[test]
fn decode_fire_with_too_few_fields() {
    assert_eq!(decode(b"/fire"), Err(MalformedCommand));
    assert_eq!(decode(b"/fire "), Err(MalformedCommand));
    assert_eq!(decode(b"/fire Bob"), Err(MalformedCommand));
    assert_eq!(decode(b"/fire Bob 3"), Err(MalformedCommand));
    assert_eq!(decode(b"/fire Bob 3 "), Err(MalformedCommand));
}

#[test]
fn decode_fire_with_too_many_fields() {
    assert_eq!(decode(b"/fire Bob 3 4 5"), Err(MalformedCommand));
    assert_eq!(decode(b"/fire Bob 3 4 "), Err(MalformedCommand));
    assert_eq!(decode(b"/fire Bob  3 4"), Err(MalformedCommand));
}

#[test]
fn decode_fire_with_signs_and_blanks() {
    assert_eq!(decode(b"/fire Bob +3 4"), Err(MalformedCommand));
    assert_eq!(decode(b"/fire Bob -3 4"), Err(MalformedCommand));
    assert_eq!(decode(b"/fire Bob 3 4\r"), Err(MalformedCommand));
}

#[test]
fn decode_fire_keeps_numbers_off_the_board() {
    assert_eq!(
        decode(b"/fire Bob 12 007"),
        Ok(Command::Fire { target: b"Bob".to_vec(), row: 12, col: 7 })
    );
}

#[test]
fn decode_fire_with_an_empty_target() {
    assert_eq!(decode(b"/fire  3 4"), Ok(Command::Fire { target: Vec::new(), row: 3, col: 4 }));
}

#[test]
fn decode_fire_with_a_number_too_large() {
    let mut line = b"/fire Bob 1 ".to_vec();
    line.extend_from_slice(usize::MAX.to_string().as_bytes());
    assert_eq!(
        decode(&line),
        Ok(Command::Fire { target: b"Bob".to_vec(), row: 1, col: usize::MAX })
    );
    line.push(b'0');
    assert_eq!(decode(&line), Err(MalformedCommand));
}

#[test]
fn decode_cnct() {
    assert_eq!(decode(b"/cnct Alice"), Ok(Command::Cnct(b"Alice".to_vec())));
    assert_eq!(decode(b"/cnct Alice B"), Ok(Command::Cnct(b"Alice B".to_vec())));
}

#[test]
fn decode_start() {
    assert_eq!(decode(b"/start"), Ok(Command::Start));
}

#[test]
fn decode_start_ignores_what_follows() {
    assert_eq!(decode(b"/start now"), Ok(Command::Start));
    assert_eq!(decode(b"/start "), Ok(Command::Start));
}

#[test]
fn decode_text_commands_keep_embedded_spaces() {
    assert_eq!(decode(b"/msg You hit a ship"), Ok(Command::Msg(b"You hit a ship".to_vec())));
    assert_eq!(
        decode(b"/alrt Bob connected to the game"),
        Ok(Command::Alrt(b"Bob connected to the game".to_vec()))
    );
    assert_eq!(
        decode(b"/dscnct Game Over. You Lose!"),
        Ok(Command::Dscnct(b"Game Over. You Lose!".to_vec()))
    );
    assert_eq!(decode(b"/msg  two  spaces "), Ok(Command::Msg(b" two  spaces ".to_vec())));
}

#[test]
fn decode_text_commands_with_empty_text() {
    assert_eq!(decode(b"/msg "), Ok(Command::Msg(Vec::new())));
    assert_eq!(decode(b"/alrt "), Ok(Command::Alrt(Vec::new())));
    assert_eq!(decode(b"/dscnct "), Ok(Command::Dscnct(Vec::new())));
    assert_eq!(decode(b"/cnct "), Ok(Command::Cnct(Vec::new())));
}

#[test]
fn decode_without_a_payload_where_one_is_needed() {
    assert_eq!(decode(b"/cnct"), Err(MalformedCommand));
    assert_eq!(decode(b"/msg"), Err(MalformedCommand));
    assert_eq!(decode(b"/alrt"), Err(MalformedCommand));
    assert_eq!(decode(b"/dscnct"), Err(MalformedCommand));
}

#[test]
fn decode_unrecognized_tokens() {
    assert_eq!(decode(b"/leave now"), Ok(Command::Unrecognized(b"/leave".to_vec())));
    assert_eq!(decode(b"hello"), Ok(Command::Unrecognized(b"hello".to_vec())));
    assert_eq!(decode(b"/MSG hi"), Ok(Command::Unrecognized(b"/MSG".to_vec())));
    assert_eq!(decode(b"/msgs hi"), Ok(Command::Unrecognized(b"/msgs".to_vec())));
    assert_eq!(decode(b""), Ok(Command::Unrecognized(Vec::new())));
    assert_eq!(decode(b" /msg hi"), Ok(Command::Unrecognized(Vec::new())));
}

#[test]
fn encode_each_command() {
    assert_eq!(encode(&Command::Cnct(b"Alice".to_vec())), b"/cnct Alice".to_vec());
    assert_eq!(encode(&Command::Start), b"/start".to_vec());
    assert_eq!(
        encode(&Command::Fire { target: b"Bob".to_vec(), row: 3, col: 4 }),
        b"/fire Bob 3 4".to_vec()
    );
    assert_eq!(encode(&Command::Msg(b"Miss".to_vec())), b"/msg Miss".to_vec());
    assert_eq!(encode(&Command::Alrt(b"Game started".to_vec())), b"/alrt Game started".to_vec());
    assert_eq!(
        encode(&Command::Dscnct(b"Game Over. You Lose!".to_vec())),
        b"/dscnct Game Over. You Lose!".to_vec()
    );
    assert_eq!(encode(&Command::Unrecognized(b"/leave".to_vec())), b"/leave".to_vec());
}

#[test]
fn round_trip_of_every_token() {
    round_trip(Command::Cnct(b"Alice".to_vec()));
    round_trip(Command::Cnct(Vec::new()));
    round_trip(Command::Start);
    round_trip(Command::Fire { target: b"Bob".to_vec(), row: 0, col: 9 });
    round_trip(Command::Fire { target: b"Bob".to_vec(), row: 10, col: 1234567 });
    round_trip(Command::Fire { target: Vec::new(), row: usize::MAX, col: 0 });
    round_trip(Command::Msg(b"a message with  spaces".to_vec()));
    round_trip(Command::Msg(b"/msg /msg".to_vec()));
    round_trip(Command::Alrt(b"!".to_vec()));
    round_trip(Command::Dscnct(Vec::new()));
    round_trip(Command::Unrecognized(b"/leave".to_vec()));
}

#[test]
fn a_target_with_a_space_does_not_survive() {
    let c = Command::Fire { target: b"Bob Jr".to_vec(), row: 3, col: 4 };
    assert_eq!(encode(&c), b"/fire Bob Jr 3 4".to_vec());
    assert_eq!(decode(&encode(&c)), Err(MalformedCommand));
}

#[test]
fn parse_uint_values() {
    assert_eq!(parse_uint(b"0"), Some(0));
    assert_eq!(parse_uint(b"7"), Some(7));
    assert_eq!(parse_uint(b"10"), Some(10));
    assert_eq!(parse_uint(b"007"), Some(7));
    assert_eq!(parse_uint(b"1234567890"), Some(1234567890));
    assert_eq!(parse_uint(usize::MAX.to_string().as_bytes()), Some(usize::MAX));
}

#[test]
fn parse_uint_refusals() {
    assert_eq!(parse_uint(b""), None);
    assert_eq!(parse_uint(b"x"), None);
    assert_eq!(parse_uint(b"1x"), None);
    assert_eq!(parse_uint(b"+1"), None);
    assert_eq!(parse_uint(b"-1"), None);
    assert_eq!(parse_uint(b" 1"), None);
    assert_eq!(parse_uint(b"1 "), None);
    assert_eq!(parse_uint(b"1.0"), None);
    let mut past = usize::MAX.to_string().into_bytes();
    let last = past.len() - 1;
    if past[last] < b'9' {
        past[last] += 1;
    } else {
        past.push(b'0');
    }
    assert_eq!(parse_uint(&past), None);
    assert_eq!(parse_uint(b"99999999999999999999999999999999999999999999"), None);
    assert_eq!(parse_uint(b"99999999999999999999999999999999999999999x"), None);
}

#[test]
fn format_uint_values() {
    assert_eq!(format_uint(0), b"0".to_vec());
    assert_eq!(format_uint(9), b"9".to_vec());
    assert_eq!(format_uint(10), b"10".to_vec());
    assert_eq!(format_uint(4096), b"4096".to_vec());
    assert_eq!(format_uint(usize::MAX), usize::MAX.to_string().into_bytes());
}

#[test]
fn format_then_parse() {
    for n in [0usize, 1, 9, 10, 11, 99, 100, 12345, usize::MAX - 1, usize::MAX] {
        assert_eq!(parse_uint(&format_uint(n)), Some(n));
    }
}

#[test]
fn find_byte_finds_the_first() {
    assert_eq!(find_byte(b"a b c", b' '), 1);
    assert_eq!(find_byte(b" ab", b' '), 0);
    assert_eq!(find_byte(b"abc", b' '), 3);
    assert_eq!(find_byte(b"", b' '), 0);
}

#[test]
fn bytes_eq_compares_contents() {
    assert!(bytes_eq(b"abc", b"abc"));
    assert!(bytes_eq(b"", b""));
    assert!(!bytes_eq(b"abc", b"abd"));
    assert!(!bytes_eq(b"abc", b"ab"));
    assert!(!bytes_eq(b"ab", b"abc"));
}

#[test]
fn append_and_copy() {
    let mut v = b"ab".to_vec();
    append_bytes(&mut v, b"cd");
    assert_eq!(v, b"abcd".to_vec());
    append_bytes(&mut v, b"");
    assert_eq!(v, b"abcd".to_vec());
    assert_eq!(copy_range(&v, 1, 3), b"bc".to_vec());
    assert_eq!(copy_range(&v, 2, 2), Vec::<u8>::new());
    assert_eq!(copy_range(&v, 0, 4), b"abcd".to_vec());
}
