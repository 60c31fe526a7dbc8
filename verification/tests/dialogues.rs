use chatroom::{
    lobby_start, lobby_step, lobby_step_ready, login_start, login_step, LobbyAction, LobbyEvent,
    LobbyStage, LoginAction, LoginStage, User_info_map,
};

fn s(x: &str) -> String {
    x.to_string()
}

const CHOICE: &str = "If existing user please enter Y or to create an account enter N ";
const MENU: &str =
    "Enter F to chat with friend or A to add new friend\nEnter J for Join or C for Create chat rooms : ";

fn said(actions: &[LoginAction]) -> Vec<String> {
    actions
        .iter()
        .map(|a| match a {
            LoginAction::Say(t) => format!("say:{}", t),
            LoginAction::Save(t) => format!("save:{}", t),
        })
        .collect()
}

fn done(actions: &[LobbyAction]) -> Vec<String> {
    actions
        .iter()
        .map(|a| match a {
            LobbyAction::Say(t) => format!("say:{}", t),
            LobbyAction::Tell { friend, text } => format!("tell:{}:{}", friend, text),
            LobbyAction::Save(t) => format!("save:{}", t),
            LobbyAction::StartPrivateChat { friend, friend_shown, me_shown } => {
                format!("chat:{}:{}:{}", friend, friend_shown, me_shown)
            }
            LobbyAction::OpenRoom(r) => format!("open:{}", r),
            LobbyAction::JoinRoom(r) => format!("join:{}", r),
        })
        .collect()
}

fn registry() -> User_info_map {
    User_info_map::new(&s("alice\r\n pw\r\n bob\r\n////////bob\r\n pw2\r\n alice\r\n////////carol\r\n x\r\n"))
}

#[test]
fn login_start_shows_the_choice() {
    let (stage, actions) = login_start();
    assert!(matches!(stage, LoginStage::Choice));
    assert_eq!(said(&actions), vec![format!("say:{}", CHOICE)]);
}

#[test]
fn login_with_the_right_password_enters() {
    let mut users = registry();
    let (st, a) = login_step(&mut users, LoginStage::Choice, s("Y\r\n"));
    assert_eq!(said(&a), vec![s("say:Please enter your user name : ")]);
    let (st, a) = login_step(&mut users, st, s("alice\r\n"));
    assert_eq!(said(&a), vec![s("say:Please enter your password : ")]);
    let (st, a) = login_step(&mut users, st, s("pw\r\n"));
    assert!(a.is_empty());
    match st {
        LoginStage::LoggedIn { name } => assert_eq!(name, "alice\r\n"),
        _ => panic!("not logged in"),
    }
}

#[test]
fn login_with_a_wrong_password_starts_over() {
    let mut users = registry();
    let st = LoginStage::Password { existing: true, name: s("alice\r\n") };
    let (st, a) = login_step(&mut users, st, s("nope\r\n"));
    assert!(matches!(st, LoginStage::Choice));
    assert_eq!(said(&a), vec![s("say:incorrect password \n"), format!("say:{}", CHOICE)]);
}

#[test]
fn login_of_an_unknown_user_starts_over() {
    let mut users = registry();
    let st = LoginStage::Password { existing: true, name: s("dave\r\n") };
    let (st, a) = login_step(&mut users, st, s("pw\r\n"));
    assert!(matches!(st, LoginStage::Choice));
    assert_eq!(said(&a), vec![s("say:no such user exists ! \n"), format!("say:{}", CHOICE)]);
}

#[test]
fn login_choice_is_checked() {
    let mut users = registry();
    let (st, a) = login_step(&mut users, LoginStage::Choice, s("X\r\n"));
    assert!(matches!(st, LoginStage::Choice));
    assert_eq!(said(&a), vec![s("say:Please give valid response \n"), format!("say:{}", CHOICE)]);
    let (st, a) = login_step(&mut users, LoginStage::Choice, s("Yes\r\n"));
    assert!(matches!(st, LoginStage::Choice));
    assert_eq!(said(&a), vec![format!("say:{}", CHOICE)]);
    let (st, _) = login_step(&mut users, LoginStage::Choice, s("N\r\n"));
    assert!(matches!(st, LoginStage::Name { existing: false }));
}

#[test]
fn registering_then_logging_in() {
    let mut users = registry();
    let st = LoginStage::Password { existing: false, name: s("dave\r\n") };
    let (st, a) = login_step(&mut users, st, s("pw4\r\n"));
    assert!(matches!(st, LoginStage::Choice));
    assert_eq!(said(&a), vec![s("save:////////dave\r\n pw4\r\n"), format!("say:{}", CHOICE)]);
    let st = LoginStage::Password { existing: true, name: s("dave\r\n") };
    let (st, _) = login_step(&mut users, st, s("pw4\r\n"));
    assert!(matches!(st, LoginStage::LoggedIn { .. }));
}

fn online() -> Vec<String> {
    vec![s("alice\r\n"), s("bob\r\n")]
}

#[test]
fn lobby_starts_at_the_menu() {
    let (st, a) = lobby_start();
    assert!(matches!(st, LobbyStage::Menu));
    assert_eq!(done(&a), vec![format!("say:{}", MENU)]);
}

#[test]
fn invalid_command_returns_to_menu_free() {
    let mut users = registry();
    let me = s("alice\r\n");
    let (st, a) = lobby_step(&mut users, &me, &online(), &vec![], LobbyStage::Menu, LobbyEvent::Line(s("Z\r\n")));
    assert!(matches!(st, LobbyStage::Menu));
    assert_eq!(done(&a), vec![s("say:please enter valid response\n"), format!("say:{}", MENU)]);
    assert!(!users.get_busy(me));
}

#[test]
fn empty_command_is_not_accepted() {
    let mut users = registry();
    let me = s("alice\r\n");
    let ev = LobbyEvent::Line(s("\r\n"));
    assert!(!lobby_step_ready(&mut users, &me, &online(), &LobbyStage::Menu, &ev));
    let ev = LobbyEvent::Line(s("A\r\n"));
    assert!(lobby_step_ready(&mut users, &me, &online(), &LobbyStage::Menu, &ev));
    let ev = LobbyEvent::Line(s("A\r\n"));
    assert!(!lobby_step_ready(&mut users, &s("zed\r\n"), &online(), &LobbyStage::Menu, &ev));
}

#[test]
fn adding_a_friend() {
    let mut users = registry();
    let me = s("carol\r\n");
    let (st, a) = lobby_step(&mut users, &me, &online(), &vec![], LobbyStage::Menu, LobbyEvent::Line(s("A\r\n")));
    assert!(matches!(st, LobbyStage::AddFriend));
    assert_eq!(done(&a), vec![s("say:please enter your friends user name : ")]);
    assert!(users.get_busy(me.clone()));
    let (st, a) = lobby_step(&mut users, &me, &online(), &vec![], st, LobbyEvent::Line(s("alice\r\n")));
    assert!(matches!(st, LobbyStage::Menu));
    assert_eq!(done(&a), vec![s("save:////////carol\r\n x\r\n alice\r\n"), format!("say:{}", MENU)]);
    assert_eq!(users.get_friend_list(me.clone()), vec![s("alice\r\n")]);
    assert!(!users.get_busy(me.clone()));
    let (_, a) = lobby_step(&mut users, &me, &online(), &vec![], LobbyStage::AddFriend, LobbyEvent::Line(s("zed\r\n")));
    assert_eq!(done(&a), vec![s("say:no such user id\n"), format!("say:{}", MENU)]);
}

#[test]
fn no_friends_online() {
    let mut users = registry();
    let me = s("carol\r\n");
    let (st, a) = lobby_step(&mut users, &me, &online(), &vec![], LobbyStage::Menu, LobbyEvent::Line(s("F\r\n")));
    assert!(matches!(st, LobbyStage::Menu));
    assert_eq!(done(&a), vec![s("say:no friends online bohooooo\n"), format!("say:{}", MENU)]);
    assert!(!users.get_busy(me));
}

#[test]
fn chatting_with_a_free_friend_declined() {
    let mut users = registry();
    let me = s("alice\r\n");
    let (st, a) = lobby_step(&mut users, &me, &online(), &vec![], LobbyStage::Menu, LobbyEvent::Line(s("F\r\n")));
    assert_eq!(
        done(&a),
        vec![s("say:Here is your online friends list : \n"), s("say:bob\r\n"), s("say:Enter a friends name : ")]
    );
    let (st, a) = lobby_step(&mut users, &me, &online(), &vec![], st, LobbyEvent::Line(s("bob\r\n")));
    assert_eq!(
        done(&a),
        vec![
            s("tell:bob\r\n:\nalice would like to chat with you , Accept by entering Yes or else No\n"),
            s("say:waiting for other user to accept \n"),
        ]
    );
    assert!(users.get_busy(s("bob\r\n")));
    assert!(users.get_priavte_chat(s("bob\r\n")));
    let (st, a) = lobby_step(&mut users, &me, &online(), &vec![], st, LobbyEvent::FriendLine(s("maybe\r\n")));
    assert!(matches!(st, LobbyStage::Menu));
    assert_eq!(
        done(&a),
        vec![
            s("tell:bob\r\n:Invalid response , Request Declined\n"),
            s("say:Your request is Declined\n"),
            format!("say:{}", MENU),
        ]
    );
    assert!(!users.get_busy(s("bob\r\n")));
    assert!(!users.get_priavte_chat(s("bob\r\n")));
    assert!(!users.get_busy(me));
}

#[test]
fn declining_with_y_tells_nothing_more() {
    let mut users = registry();
    let me = s("alice\r\n");
    let st = LobbyStage::AwaitingReply { friend: s("bob\r\n") };
    let (_, a) = lobby_step(&mut users, &me, &online(), &vec![], st, LobbyEvent::FriendLine(s("Y\r\n")));
    assert_eq!(done(&a), vec![s("say:Your request is Declined\n"), format!("say:{}", MENU)]);
}

#[test]
fn chatting_with_a_free_friend_accepted_then_over() {
    let mut users = registry();
    let me = s("alice\r\n");
    users.set_busy_true(s("bob\r\n"));
    users.set_private_chat_true(s("bob\r\n"));
    let st = LobbyStage::AwaitingReply { friend: s("bob\r\n") };
    let (st, a) = lobby_step(&mut users, &me, &online(), &vec![], st, LobbyEvent::FriendLine(s("start\r\n")));
    assert!(matches!(st, LobbyStage::PrivateChat { .. }));
    assert_eq!(
        done(&a),
        vec![
            s("tell:bob\r\n:Chat is live\n"),
            s("say:Accepted , you can now start chatting\n"),
            s("chat:bob\r\n:bob:alice"),
        ]
    );
    let (st, a) = lobby_step(&mut users, &me, &online(), &vec![], st, LobbyEvent::ChatOver);
    assert!(matches!(st, LobbyStage::Menu));
    assert_eq!(done(&a), vec![format!("say:{}", MENU)]);
    assert!(!users.get_busy(s("bob\r\n")));
    assert!(!users.get_priavte_chat(s("bob\r\n")));
}

#[test]
fn busy_friend_gets_a_message() {
    let mut users = registry();
    let me = s("alice\r\n");
    users.set_busy_true(s("bob\r\n"));
    let st = LobbyStage::PickFriend { online: vec![s("bob\r\n")] };
    let (st, a) = lobby_step(&mut users, &me, &online(), &vec![], st, LobbyEvent::Line(s("bob\r\n")));
    assert_eq!(done(&a), vec![s("say:User is busy , you can only send him/her a message : ")]);
    let (st, a) = lobby_step(&mut users, &me, &online(), &vec![], st, LobbyEvent::Line(s("hey\r\n")));
    assert!(matches!(st, LobbyStage::Menu));
    assert_eq!(
        done(&a),
        vec![
            s("tell:bob\r\n:alice send you a messsage : hey\r\n(If you want to reply , you have to go back to looby) \n"),
            format!("say:{}", MENU),
        ]
    );
}

#[test]
fn wrong_friend_name() {
    let mut users = registry();
    let me = s("alice\r\n");
    let st = LobbyStage::PickFriend { online: vec![s("bob\r\n")] };
    let (st, a) = lobby_step(&mut users, &me, &online(), &vec![], st, LobbyEvent::Line(s("carol\r\n")));
    assert!(matches!(st, LobbyStage::Menu));
    assert_eq!(done(&a), vec![s("say:Wrong friend name ! \n"), format!("say:{}", MENU)]);
}

#[test]
fn creating_and_joining_rooms() {
    let mut users = registry();
    let me = s("alice\r\n");
    let (st, a) = lobby_step(&mut users, &me, &online(), &vec![], LobbyStage::Menu, LobbyEvent::Line(s("C\r\n")));
    assert_eq!(done(&a), vec![s("say:please enter chatroom name:")]);
    let (st, a) = lobby_step(&mut users, &me, &online(), &vec![], st, LobbyEvent::Line(s("lounge\r\n")));
    assert!(matches!(st, LobbyStage::InRoom));
    assert_eq!(
        done(&a),
        vec![
            s("open:lounge\r\n"),
            s("join:lounge\r\n"),
            s("say:Now you are in Chatroom lounge\r\n,type in 'QUIT' to quit to go back to lobby\n"),
        ]
    );
    let (st, a) = lobby_step(&mut users, &me, &online(), &vec![], st, LobbyEvent::ChatOver);
    assert!(matches!(st, LobbyStage::Menu));
    assert_eq!(done(&a), vec![format!("say:{}", MENU)]);
    assert!(!users.get_busy(me.clone()));

    let rooms = vec![s("lounge\r\n")];
    let (st, a) = lobby_step(&mut users, &me, &online(), &rooms, LobbyStage::Menu, LobbyEvent::Line(s("J\r\n")));
    assert_eq!(done(&a), vec![s("say:lounge\r\n"), s("say:please enther chatroom name:")]);
    let (st2, a) = lobby_step(&mut users, &me, &online(), &rooms, st, LobbyEvent::Line(s("lounge\r\n")));
    assert!(matches!(st2, LobbyStage::InRoom));
    assert_eq!(
        done(&a),
        vec![
            s("join:lounge\r\n"),
            s("say:Now you are in Chatroom lounge\r\n,type in 'QUIT' to quit to go back to lobby\n"),
        ]
    );
    let st = LobbyStage::PickRoom { rooms: rooms.clone() };
    let (st, a) = lobby_step(&mut users, &me, &online(), &rooms, st, LobbyEvent::Line(s("other\r\n")));
    assert!(matches!(st, LobbyStage::Menu));
    assert_eq!(done(&a), vec![s("say:Wrong chatroom name! \n"), format!("say:{}", MENU)]);
    let (st, a) = lobby_step(&mut users, &me, &online(), &vec![], LobbyStage::Menu, LobbyEvent::Line(s("J\r\n")));
    assert!(matches!(st, LobbyStage::Menu));
    assert_eq!(done(&a), vec![s("say:There are no live chatrooms\n"), format!("say:{}", MENU)]);
}

#[test]
fn answering_a_chat_request() {
    let mut users = registry();
    let me = s("bob\r\n");
    users.set_private_chat_true(me.clone());
    let (st, a) = lobby_step(&mut users, &me, &online(), &vec![], LobbyStage::Menu, LobbyEvent::Line(s("Yes\r\n")));
    assert!(matches!(st, LobbyStage::AnsweringInvite));
    assert_eq!(done(&a), vec![s("say:you are now in private chat enter start to begin chat. \n")]);
    assert!(users.get_busy(me.clone()));
    let (st, a) = lobby_step(&mut users, &me, &online(), &vec![], st, LobbyEvent::Tick);
    assert!(matches!(st, LobbyStage::AnsweringInvite));
    assert!(a.is_empty());
    users.set_busy_false(me.clone());
    let (st, a) = lobby_step(&mut users, &me, &online(), &vec![], st, LobbyEvent::Tick);
    assert!(matches!(st, LobbyStage::Menu));
    assert_eq!(done(&a), vec![format!("say:{}", MENU)]);
    let (_, a) = lobby_step(&mut users, &me, &online(), &vec![], LobbyStage::Menu, LobbyEvent::Line(s("No\r\n")));
    assert_eq!(done(&a), vec![s("say:Decline chat request? (Y/N) \n")]);
    let (_, a) = lobby_step(&mut users, &me, &online(), &vec![], LobbyStage::Menu, LobbyEvent::Line(s("\r\n")));
    assert_eq!(
        done(&a),
        vec![s("say:Invalid response , Decline chat request? (Y/N), If Enter N chat will start\n")]
    );
}

#[test]
fn unexpected_events_change_nothing() {
    let mut users = registry();
    let me = s("alice\r\n");
    let (st, a) = lobby_step(&mut users, &me, &online(), &vec![], LobbyStage::Menu, LobbyEvent::Tick);
    assert!(matches!(st, LobbyStage::Menu));
    assert!(a.is_empty());
    assert!(!users.get_busy(me));
}

#[test]
fn lobby_keeps_accounts_and_stays_ready() {
    let mut users = registry();
    let me = s("alice\r\n");
    let mut stage = LobbyStage::Menu;
    let events = vec![
        LobbyEvent::Line(s("F\r\n")),
        LobbyEvent::Line(s("bob\r\n")),
        LobbyEvent::FriendLine(s("N\r\n")),
        LobbyEvent::ChatOver,
        LobbyEvent::Line(s("A\r\n")),
        LobbyEvent::Line(s("carol\r\n")),
    ];
    for ev in events {
        assert!(lobby_step_ready(&mut users, &me, &online(), &stage, &ev));
        let (next, _) = lobby_step(&mut users, &me, &online(), &vec![], stage, ev);
        stage = next;
    }
    assert!(matches!(stage, LobbyStage::Menu));
    let mut names = users.get_users();
    names.sort();
    assert_eq!(names, vec![s("alice\r\n"), s("bob\r\n"), s("carol\r\n")]);
    assert_eq!(users.get_password(s("alice\r\n")), "pw\r\n");
    assert_eq!(users.get_friend_list(me.clone()), vec![s("bob\r\n"), s("carol\r\n")]);
    assert!(!users.get_busy(s("bob\r\n")));
    assert!(!users.get_priavte_chat(s("bob\r\n")));
}
