use chatroom::text::{split_text, strip_line_end};
use chatroom::{user_chat_turn, ChatTurn, Quit_flag};

fn s(x: &str) -> String {
    x.to_string()
}

#[test]
fn quit_flag_starts_lowered_and_stays_raised() {
    let mut f = Quit_flag::new();
    assert!(!f.get());
    f.set();
    assert!(f.get());
    assert!(f.get());
}

#[test]
fn line_ending_is_removed() {
    assert_eq!(strip_line_end(&s("QUIT\r\n")), "QUIT");
    assert_eq!(strip_line_end(&s("ab")), "");
    assert_eq!(strip_line_end(&s("a")), "");
    assert_eq!(strip_line_end(&s("")), "");
    assert_eq!(strip_line_end(&s("héé")), "h");
}

#[test]
fn split_cuts_at_every_separator() {
    let slashes: Vec<char> = vec!['/'; 8];
    assert_eq!(split_text("a b////////c d", &slashes), vec![s("a b"), s("c d")]);
    assert_eq!(split_text("////////x", &slashes), vec![s(""), s("x")]);
    assert_eq!(split_text("a/////////b", &slashes), vec![s("a"), s("/b")]);
    assert_eq!(split_text("", &slashes), vec![s("")]);
    assert_eq!(split_text("a  b ", &vec![' ']), vec![s("a"), s(""), s("b"), s("")]);
}

#[test]
fn private_chat_relays_until_quit() {
    match user_chat_turn(&s("bob"), &s("hi there\r\n"), false) {
        ChatTurn::Relay(t) => assert_eq!(t, "bob : hi there\n"),
        _ => panic!("expected a relayed line"),
    }
    match user_chat_turn(&s("bob"), &s("QUIT\r\n"), false) {
        ChatTurn::Quit { to_peer, to_self } => {
            assert_eq!(to_peer, "bob has quit plz enter any key to go back to lobby \n");
            assert_eq!(to_self, "waiting for other user to quit\n");
        }
        _ => panic!("expected quitting"),
    }
    match user_chat_turn(&s("bob"), &s("anything\r\n"), true) {
        ChatTurn::Stop => {}
        _ => panic!("expected stopping"),
    }
    match user_chat_turn(&s("bob"), &s("QUIT\r\n"), true) {
        ChatTurn::Quit { .. } => {}
        _ => panic!("QUIT comes first"),
    }
}
