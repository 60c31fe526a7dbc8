use chatroom::{
    broadcast, create_chatroom, group_chat_line, join_group_chat, leave_room_if_quit, relays_to,
    Group_chat,
};

fn s(x: &str) -> String {
    x.to_string()
}

#[test]
fn created_room_is_listed_and_empty() {
    let mut g = Group_chat::new();
    assert!(g.get_chatroom_list().is_empty());
    let _relay = create_chatroom(&mut g, s("lounge\r\n"));
    assert_eq!(g.get_chatroom_list(), vec![s("lounge\r\n")]);
    assert!(g.get_sender_list(s("lounge\r\n")).is_empty());
    let _other = create_chatroom(&mut g, s("games\r\n"));
    let mut rooms = g.get_chatroom_list();
    rooms.sort();
    assert_eq!(rooms, vec![s("games\r\n"), s("lounge\r\n")]);
}

#[test]
fn posts_reach_the_relay_and_the_relay_reaches_members() {
    let mut g = Group_chat::new();
    let relay = create_chatroom(&mut g, s("lounge"));
    let (post, inbox_a) = join_group_chat(&mut g, s("lounge"), s("alice\r\n"));
    let (_post_b, inbox_b) = join_group_chat(&mut g, s("lounge"), s("bob\r\n"));
    assert_eq!(g.get_sender_list(s("lounge")).len(), 2);
    post.send(s("alice : hello\n"));
    assert_eq!(relay.recv(), Some(s("alice : hello\n")));
    let members = g.get_sender_list(s("lounge"));
    broadcast(&members, &s("alice : hello\n"));
    assert_eq!(inbox_a.recv(), Some(s("alice : hello\n")));
    assert_eq!(inbox_b.recv(), Some(s("alice : hello\n")));
    let room_sender = g.get_sender(s("lounge"));
    room_sender.send(s("x"));
    assert_eq!(g.get_receiver(s("lounge")).recv(), Some(s("x")));
}

#[test]
fn leaving_a_room_removes_only_that_member() {
    let mut g = Group_chat::new();
    let _relay = create_chatroom(&mut g, s("lounge"));
    let (_p, _a) = join_group_chat(&mut g, s("lounge"), s("alice"));
    let (_q, inbox_b) = join_group_chat(&mut g, s("lounge"), s("bob"));
    g.remove_member(s("lounge"), s("alice"));
    let members = g.get_sender_list(s("lounge"));
    assert_eq!(members.len(), 1);
    broadcast(&members, &s("hi"));
    assert_eq!(inbox_b.recv(), Some(s("hi")));
    g.remove_member(s("lounge"), s("nobody"));
    assert_eq!(g.get_sender_list(s("lounge")).len(), 1);
}

#[test]
fn rejoining_replaces_the_members_channel() {
    let mut g = Group_chat::new();
    let _relay = create_chatroom(&mut g, s("lounge"));
    let (_p, _old_inbox) = join_group_chat(&mut g, s("lounge"), s("alice"));
    let (_q, new_inbox) = join_group_chat(&mut g, s("lounge"), s("alice"));
    let members = g.get_sender_list(s("lounge"));
    assert_eq!(members.len(), 1);
    broadcast(&members, &s("again"));
    assert_eq!(new_inbox.recv(), Some(s("again")));
}

#[test]
fn own_posts_are_not_relayed_back() {
    assert!(!relays_to(&s("alice : hi\n"), &s("alice")));
    assert!(relays_to(&s("bob : hi\n"), &s("alice")));
    assert!(!relays_to(&s("alice has left the group chat.\n"), &s("alice")));
    assert!(relays_to(&s("al"), &s("alice")));
    assert!(!relays_to(&s("alice"), &s("alice")));
    assert!(!relays_to(&s("alicex"), &s("alice")));
}

#[test]
fn group_lines_are_posted_under_the_shown_name() {
    assert_eq!(group_chat_line(&s("alice"), &s("hello\r\n")), (false, s("alice : hello\n")));
    assert_eq!(
        group_chat_line(&s("alice"), &s("QUIT\r\n")),
        (true, s("alice has left the group chat.\n"))
    );
    assert_eq!(group_chat_line(&s("alice"), &s("QUIT")), (false, s("alice : QU\n")));
}

#[test]
fn joining_then_leaving_restores_the_members() {
    let mut g = Group_chat::new();
    let _relay = create_chatroom(&mut g, s("lounge"));
    let (_p, inbox_a) = join_group_chat(&mut g, s("lounge"), s("alice"));
    assert_eq!(g.get_sender_list(s("lounge")).len(), 1);
    let (_q, _inbox_b) = join_group_chat(&mut g, s("lounge"), s("bob"));
    assert_eq!(g.get_sender_list(s("lounge")).len(), 2);
    g.remove_member(s("lounge"), s("bob"));
    let members = g.get_sender_list(s("lounge"));
    assert_eq!(members.len(), 1);
    broadcast(&members, &s("still here"));
    assert_eq!(inbox_a.recv(), Some(s("still here")));
}

#[test]
fn recreating_a_room_empties_it() {
    let mut g = Group_chat::new();
    let _relay = create_chatroom(&mut g, s("lounge"));
    let (_p, _a) = join_group_chat(&mut g, s("lounge"), s("alice"));
    let _relay2 = create_chatroom(&mut g, s("lounge"));
    assert!(g.get_sender_list(s("lounge")).is_empty());
    assert_eq!(g.get_chatroom_list(), vec![s("lounge")]);
}

#[test]
fn lines_starting_with_the_shown_name_are_held_back() {
    assert!(!relays_to(&s("alice : hi\n"), &s("al")));
    assert!(relays_to(&s("carol : alice\n"), &s("alice")));
    assert!(relays_to(&s("Alice : hi\n"), &s("alice")));
}

#[test]
fn member_leaves_once_its_flag_is_raised() {
    let mut g = Group_chat::new();
    let _relay = create_chatroom(&mut g, s("lounge"));
    let (_p, _a) = join_group_chat(&mut g, s("lounge"), s("alice\r\n"));
    assert!(!leave_room_if_quit(&mut g, &s("lounge"), &s("alice\r\n"), false));
    assert_eq!(g.get_sender_list(s("lounge")).len(), 1);
    assert!(leave_room_if_quit(&mut g, &s("lounge"), &s("alice\r\n"), true));
    assert!(g.get_sender_list(s("lounge")).is_empty());
}
