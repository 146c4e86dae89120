use protohackers::chat::{
    build_log_in_msg, build_log_out_msg, build_new_user_msg, build_welcome_msg, is_alphanumeric,
    parse_chat_msg, parse_name, Message, Room, EOM,
};

fn message(name: &str, value: &str) -> Message {
    Message { name: name.to_owned(), value: value.to_owned() }
}

#[test]
fn welcome() {
    assert_eq!(EOM, b'\n');
    assert_eq!(build_welcome_msg(), "Welcome to budgetchat! What shall I call you?");
}

#[test]
fn room_listing() {
    assert_eq!(build_log_in_msg(&vec![]), "* The room contains: ");
    assert_eq!(build_log_in_msg(&vec!["bob".to_owned()]), "* The room contains: bob");
    assert_eq!(
        build_log_in_msg(&vec!["bob".to_owned(), "charlie".to_owned(), "dave".to_owned()]),
        "* The room contains: bob, charlie, dave"
    );
}

#[test]
fn arrival_and_departure() {
    assert_eq!(build_new_user_msg("bob"), message("bob", "* bob has entered the room"));
    assert_eq!(build_log_out_msg("bob"), message("bob", "* bob has left the room"));
    assert_eq!(build_new_user_msg(""), message("", "*  has entered the room"));
}

#[test]
fn chat_lines_carry_the_name() {
    assert_eq!(
        parse_chat_msg(b"hello there".to_vec(), "alice"),
        Some(message("alice", "[alice] hello there"))
    );
    assert_eq!(parse_chat_msg(b" ".to_vec(), "a"), Some(message("a", "[a]  ")));
}

#[test]
fn empty_and_foreign_lines_are_dropped() {
    assert_eq!(parse_chat_msg(Vec::new(), "alice"), None);
    assert_eq!(parse_chat_msg("caf\u{e9}".as_bytes().to_vec(), "alice"), None);
    assert_eq!(parse_chat_msg(vec![0x68, 0xff], "alice"), None);
}

#[test]
fn names_are_letters_and_digits() {
    assert_eq!(parse_name(b"alice".to_vec()), Some("alice".to_owned()));
    assert_eq!(parse_name(b"Bob42".to_vec()), Some("Bob42".to_owned()));
    assert_eq!(parse_name(b"0".to_vec()), Some("0".to_owned()));
    assert_eq!(parse_name(b"azAZ09".to_vec()), Some("azAZ09".to_owned()));
}

#[test]
fn other_names_are_refused() {
    assert_eq!(parse_name(Vec::new()), None);
    assert_eq!(parse_name(b"al ice".to_vec()), None);
    assert_eq!(parse_name(b"alice!".to_vec()), None);
    assert_eq!(parse_name(b"_".to_vec()), None);
    assert_eq!(parse_name(b"a\r".to_vec()), None);
    assert_eq!(parse_name("\u{e9}".as_bytes().to_vec()), None);
    assert_eq!(parse_name(vec![0x61, 0x80]), None);
    for byte in [0x2fu8, 0x3a, 0x40, 0x5b, 0x60, 0x7b] {
        assert_eq!(parse_name(vec![byte]), None);
    }
}

#[test]
fn alphanumeric_bytes_agree_with_the_standard_library() {
    for byte in 0..=255u8 {
        assert_eq!(is_alphanumeric(byte), byte.is_ascii_alphanumeric());
        if byte < 128 {
            assert_eq!(is_alphanumeric(byte), (byte as char).is_alphanumeric());
        }
    }
}

#[test]
fn own_lines_are_recognised() {
    let line = message("alice", "[alice] hi");
    assert!(line.is_from("alice"));
    assert!(!line.is_from("alic"));
    assert!(!line.is_from("bob"));
}

#[test]
fn room_lets_each_name_in_once() {
    let mut room = Room::new();
    assert!(!room.contains("alice"));
    assert_eq!(room.log_in("alice"), Some("* The room contains: ".to_owned()));
    assert!(room.contains("alice"));
    assert_eq!(room.log_in("bob"), Some("* The room contains: alice".to_owned()));
    assert_eq!(room.log_in("alice"), None);
    assert_eq!(room.log_in("carol"), Some("* The room contains: alice, bob".to_owned()));
}

#[test]
fn room_forgets_those_who_leave() {
    let mut room = Room::new();
    room.log_in("alice");
    room.log_in("bob");
    room.log_in("carol");
    room.log_out("bob");
    assert!(!room.contains("bob"));
    assert!(room.contains("alice"));
    room.log_out("nobody");
    assert_eq!(room.log_in("bob"), Some("* The room contains: alice, carol".to_owned()));
    room.log_out("alice");
    room.log_out("carol");
    room.log_out("bob");
    assert_eq!(room.log_in("dave"), Some("* The room contains: ".to_owned()));
}
