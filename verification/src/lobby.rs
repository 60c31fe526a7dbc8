//! The lobby dialogue of a logged-in user: add friends, chat privately
//! with an online friend or leave a busy one a message, create or join chat
//! rooms, and answer another user's private-chat request. Each step takes
//! the stage the dialogue is in and what happened, updates the registry and
//! says what to do next.
use vstd::prelude::*;
use vstd::string::*;
use crate::text::{contains_text, drop_line_end, strip_line_end, text, views};
use crate::users::{
    add_unique, lemma_busy_flag, lemma_private_chat_flag, record_of, user_fields, with_busy,
    with_friend, with_private_chat, UserView, User_info_map,
};

verus! {

/// Where the lobby dialogue stands.
pub enum LobbyStage {
    /// The menu has been shown; a command is awaited.
    Menu,
    /// Another user asked for a private chat; waiting until that user's
    /// side releases this one (clears its busy flag).
    AnsweringInvite,
    /// The name of a user to befriend is awaited.
    AddFriend,
    /// These online friends were listed; the one to chat with is awaited.
    PickFriend { online: Vec<String> },
    /// `friend` is busy; the message to leave is awaited.
    DirectMessage { friend: String },
    /// `friend` was asked for a private chat; the reply, read from the
    /// friend's connection, is awaited.
    AwaitingReply { friend: String },
    /// A private chat with `friend` runs; waiting until both sides quit.
    PrivateChat { friend: String },
    /// The name of a room to create is awaited.
    RoomName,
    /// These rooms were listed; the one to join is awaited.
    PickRoom { rooms: Vec<String> },
    /// The user is in a room; waiting until the user quits it.
    InRoom,
}

/// What happened.
pub enum LobbyEvent {
    /// The user sent a line (with its line ending).
    Line(String),
    /// The friend asked for a private chat sent a line (with its ending).
    FriendLine(String),
    /// Time to check the flags again.
    Tick,
    /// The chat or room the user was in has ended for the user.
    ChatOver,
}

/// What to do.
pub enum LobbyAction {
    /// Write this text to the user's connection.
    Say(String),
    /// Write `text` to the connection of the user `friend`.
    Tell { friend: String, text: String },
    /// Append this record to the user store.
    Save(String),
    /// Run a private chat between `friend`, shown as `friend_shown`, and
    /// this user, shown as `me_shown`.
    StartPrivateChat { friend: String, friend_shown: String, me_shown: String },
    /// Create the room and run its relay.
    OpenRoom(String),
    /// Join the room and run this user's side of it.
    JoinRoom(String),
}

/// The model of a lobby stage.
pub enum LobbyStageView {
    Menu,
    AnsweringInvite,
    AddFriend,
    PickFriend(Seq<Seq<char>>),
    DirectMessage(Seq<char>),
    AwaitingReply(Seq<char>),
    PrivateChat(Seq<char>),
    RoomName,
    PickRoom(Seq<Seq<char>>),
    InRoom,
}

/// The model of a lobby event.
pub enum LobbyEventView {
    Line(Seq<char>),
    FriendLine(Seq<char>),
    Tick,
    ChatOver,
}

/// The model of a lobby action.
pub enum LobbyActionView {
    Say(Seq<char>),
    Tell(Seq<char>, Seq<char>),
    Save(Seq<char>),
    StartPrivateChat(Seq<char>, Seq<char>, Seq<char>),
    OpenRoom(Seq<char>),
    JoinRoom(Seq<char>),
}

impl View for LobbyStage {
    type V = LobbyStageView;

    open spec fn view(&self) -> LobbyStageView {
        match self {
            LobbyStage::Menu => LobbyStageView::Menu,
            LobbyStage::AnsweringInvite => LobbyStageView::AnsweringInvite,
            LobbyStage::AddFriend => LobbyStageView::AddFriend,
            LobbyStage::PickFriend { online } => LobbyStageView::PickFriend(views(online@)),
            LobbyStage::DirectMessage { friend } => LobbyStageView::DirectMessage(friend@),
            LobbyStage::AwaitingReply { friend } => LobbyStageView::AwaitingReply(friend@),
            LobbyStage::PrivateChat { friend } => LobbyStageView::PrivateChat(friend@),
            LobbyStage::RoomName => LobbyStageView::RoomName,
            LobbyStage::PickRoom { rooms } => LobbyStageView::PickRoom(views(rooms@)),
            LobbyStage::InRoom => LobbyStageView::InRoom,
        }
    }
}

impl View for LobbyEvent {
    type V = LobbyEventView;

    open spec fn view(&self) -> LobbyEventView {
        match self {
            LobbyEvent::Line(l) => LobbyEventView::Line(l@),
            LobbyEvent::FriendLine(l) => LobbyEventView::FriendLine(l@),
            LobbyEvent::Tick => LobbyEventView::Tick,
            LobbyEvent::ChatOver => LobbyEventView::ChatOver,
        }
    }
}

impl View for LobbyAction {
    type V = LobbyActionView;

    open spec fn view(&self) -> LobbyActionView {
        match self {
            LobbyAction::Say(t) => LobbyActionView::Say(t@),
            LobbyAction::Tell { friend, text } => LobbyActionView::Tell(friend@, text@),
            LobbyAction::Save(t) => LobbyActionView::Save(t@),
            LobbyAction::StartPrivateChat { friend, friend_shown, me_shown } =>
                LobbyActionView::StartPrivateChat(friend@, friend_shown@, me_shown@),
            LobbyAction::OpenRoom(r) => LobbyActionView::OpenRoom(r@),
            LobbyAction::JoinRoom(r) => LobbyActionView::JoinRoom(r@),
        }
    }
}

/// The models of a list of lobby actions.
pub open spec fn lobby_actions(v: Seq<LobbyAction>) -> Seq<LobbyActionView> {
    v.map_values(|a: LobbyAction| a@)
}

/// Saying each of `texts`, in order.
pub open spec fn say_each(texts: Seq<Seq<char>>) -> Seq<LobbyActionView> {
    texts.map_values(|t: Seq<char>| LobbyActionView::Say(t))
}

/// The friends in `friends` that are among the `online` users, in order.
pub open spec fn online_friends(friends: Seq<Seq<char>>, online: Seq<Seq<char>>) -> Seq<Seq<char>> {
    friends.filter(|f: Seq<char>| online.contains(f))
}

pub open spec fn menu_prompt() -> Seq<char> {
    "Enter F to chat with friend or A to add new friend\nEnter J for Join or C for Create chat rooms : "@
}

pub open spec fn invite_accepted() -> Seq<char> {
    "you are now in private chat enter start to begin chat. \n"@
}

pub open spec fn invite_refused() -> Seq<char> {
    "Decline chat request? (Y/N) \n"@
}

pub open spec fn invite_unclear() -> Seq<char> {
    "Invalid response , Decline chat request? (Y/N), If Enter N chat will start\n"@
}

pub open spec fn ask_new_friend() -> Seq<char> {
    "please enter your friends user name : "@
}

pub open spec fn no_such_user() -> Seq<char> {
    "no such user id\n"@
}

pub open spec fn no_friends_online() -> Seq<char> {
    "no friends online bohooooo\n"@
}

pub open spec fn online_list_header() -> Seq<char> {
    "Here is your online friends list : \n"@
}

pub open spec fn ask_friend() -> Seq<char> {
    "Enter a friends name : "@
}

pub open spec fn friend_busy() -> Seq<char> {
    "User is busy , you can only send him/her a message : "@
}

/// The message left for a busy friend by the user shown as `me`.
pub open spec fn direct_message(me: Seq<char>, msg: Seq<char>) -> Seq<char> {
    me + " send you a messsage : "@ + msg + "(If you want to reply , you have to go back to looby) \n"@
}

/// The request shown to a friend asked for a private chat by the user
/// shown as `me`.
pub open spec fn chat_request(me: Seq<char>) -> Seq<char> {
    "\n"@ + me + " would like to chat with you , Accept by entering Yes or else No\n"@
}

pub open spec fn waiting_for_reply() -> Seq<char> {
    "waiting for other user to accept \n"@
}

pub open spec fn chat_live() -> Seq<char> {
    "Chat is live\n"@
}

pub open spec fn chat_accepted() -> Seq<char> {
    "Accepted , you can now start chatting\n"@
}

pub open spec fn reply_invalid() -> Seq<char> {
    "Invalid response , Request Declined\n"@
}

pub open spec fn request_declined() -> Seq<char> {
    "Your request is Declined\n"@
}

pub open spec fn wrong_friend() -> Seq<char> {
    "Wrong friend name ! \n"@
}

pub open spec fn ask_new_room() -> Seq<char> {
    "please enter chatroom name:"@
}

/// The note shown on entering room `room`.
pub open spec fn room_reminder(room: Seq<char>) -> Seq<char> {
    "Now you are in Chatroom "@ + room + ",type in 'QUIT' to quit to go back to lobby\n"@
}

pub open spec fn no_rooms() -> Seq<char> {
    "There are no live chatrooms\n"@
}

pub open spec fn ask_room() -> Seq<char> {
    "please enther chatroom name:"@
}

pub open spec fn wrong_room() -> Seq<char> {
    "Wrong chatroom name! \n"@
}

pub open spec fn invalid_command() -> Seq<char> {
    "please enter valid response\n"@
}

/// Back to the menu: what was said, then the menu.
pub open spec fn then_menu(acts: Seq<LobbyActionView>) -> Seq<LobbyActionView> {
    acts.push(LobbyActionView::Say(menu_prompt()))
}

/// The step is defined: the user `me` and every user a stage refers to
/// are registered, as are the `online` users.
pub open spec fn lobby_ready(
    u: Map<Seq<char>, UserView>,
    me: Seq<char>,
    online: Seq<Seq<char>>,
    stage: LobbyStageView,
) -> bool {
    &&& u.contains_key(me)
    &&& forall|k: int| 0 <= k < online.len() ==> u.contains_key(#[trigger] online[k])
    &&& stage_refs_ready(u, stage)
}

/// The users a stage refers to are registered.
pub open spec fn stage_refs_ready(u: Map<Seq<char>, UserView>, stage: LobbyStageView) -> bool {
    match stage {
        LobbyStageView::PickFriend(list) => forall|k: int|
            0 <= k < list.len() ==> u.contains_key(#[trigger] list[k]),
        LobbyStageView::AwaitingReply(f) => u.contains_key(f),
        LobbyStageView::PrivateChat(f) => u.contains_key(f),
        _ => true,
    }
}

/// A command line at the menu has a first character once its line ending
/// is removed, unless it answers a private-chat request.
pub open spec fn event_ok(
    u: Map<Seq<char>, UserView>,
    me: Seq<char>,
    stage: LobbyStageView,
    event: LobbyEventView,
) -> bool {
    match (stage, event) {
        (LobbyStageView::Menu, LobbyEventView::Line(l)) => drop_line_end(l).len() > 0
            || u[me].private_chat,
        _ => true,
    }
}

/// What a command line at the menu does.
pub open spec fn menu_next(
    u: Map<Seq<char>, UserView>,
    me: Seq<char>,
    online: Seq<Seq<char>>,
    rooms: Seq<Seq<char>>,
    line: Seq<char>,
) -> (Map<Seq<char>, UserView>, LobbyStageView, Seq<LobbyActionView>) {
    let t = drop_line_end(line);
    let busy = with_busy(u, me, true);
    if u[me].private_chat {
        let answer = if t == "Yes"@ {
            invite_accepted()
        } else if t == "No"@ {
            invite_refused()
        } else {
            invite_unclear()
        };
        (busy, LobbyStageView::AnsweringInvite, seq![LobbyActionView::Say(answer)])
    } else if t[0] == 'A' {
        (busy, LobbyStageView::AddFriend, seq![LobbyActionView::Say(ask_new_friend())])
    } else if t[0] == 'F' {
        let fs = online_friends(u[me].friends, online);
        if fs.len() == 0 {
            (
                with_busy(u, me, false),
                LobbyStageView::Menu,
                then_menu(seq![LobbyActionView::Say(no_friends_online())]),
            )
        } else {
            (
                busy,
                LobbyStageView::PickFriend(fs),
                seq![LobbyActionView::Say(online_list_header())] + say_each(fs) + seq![
                    LobbyActionView::Say(ask_friend()),
                ],
            )
        }
    } else if t[0] == 'C' {
        (busy, LobbyStageView::RoomName, seq![LobbyActionView::Say(ask_new_room())])
    } else if t[0] == 'J' {
        if rooms.len() == 0 {
            (
                with_busy(u, me, false),
                LobbyStageView::Menu,
                then_menu(seq![LobbyActionView::Say(no_rooms())]),
            )
        } else {
            (
                busy,
                LobbyStageView::PickRoom(rooms),
                say_each(rooms) + seq![LobbyActionView::Say(ask_room())],
            )
        }
    } else {
        (
            with_busy(u, me, false),
            LobbyStageView::Menu,
            then_menu(seq![LobbyActionView::Say(invalid_command())]),
        )
    }
}

/// One step of the lobby dialogue of the user `me`: from the registry `u`,
/// the `online` users, the open `rooms`, the stage and the event, the
/// registry, stage and actions that follow. An event that the stage does
/// not wait for changes nothing.
pub open spec fn lobby_next(
    u: Map<Seq<char>, UserView>,
    me: Seq<char>,
    online: Seq<Seq<char>>,
    rooms: Seq<Seq<char>>,
    stage: LobbyStageView,
    event: LobbyEventView,
) -> (Map<Seq<char>, UserView>, LobbyStageView, Seq<LobbyActionView>) {
    match (stage, event) {
        (LobbyStageView::Menu, LobbyEventView::Line(line)) => menu_next(u, me, online, rooms, line),
        (LobbyStageView::AnsweringInvite, LobbyEventView::Tick) => {
            if u[me].busy {
                (u, stage, seq![])
            } else {
                (u, LobbyStageView::Menu, seq![LobbyActionView::Say(menu_prompt())])
            }
        },
        (LobbyStageView::AddFriend, LobbyEventView::Line(f)) => {
            if u.contains_key(f) {
                (
                    with_busy(with_friend(u, me, f), me, false),
                    LobbyStageView::Menu,
                    then_menu(seq![LobbyActionView::Save(record_of(user_fields(u[me]).push(f)))]),
                )
            } else {
                (
                    with_busy(u, me, false),
                    LobbyStageView::Menu,
                    then_menu(seq![LobbyActionView::Say(no_such_user())]),
                )
            }
        },
        (LobbyStageView::PickFriend(list), LobbyEventView::Line(c)) => {
            if list.contains(c) {
                if u[c].busy {
                    (u, LobbyStageView::DirectMessage(c), seq![LobbyActionView::Say(friend_busy())])
                } else {
                    (
                        with_busy(with_private_chat(u, c, true), c, true),
                        LobbyStageView::AwaitingReply(c),
                        seq![
                            LobbyActionView::Tell(c, chat_request(drop_line_end(me))),
                            LobbyActionView::Say(waiting_for_reply()),
                        ],
                    )
                }
            } else {
                (
                    with_busy(u, me, false),
                    LobbyStageView::Menu,
                    then_menu(seq![LobbyActionView::Say(wrong_friend())]),
                )
            }
        },
        (LobbyStageView::DirectMessage(f), LobbyEventView::Line(msg)) => (
            with_busy(u, me, false),
            LobbyStageView::Menu,
            then_menu(seq![LobbyActionView::Tell(f, direct_message(drop_line_end(me), msg))]),
        ),
        (LobbyStageView::AwaitingReply(f), LobbyEventView::FriendLine(reply)) => {
            let t = drop_line_end(reply);
            if t == "start"@ || t == "N"@ {
                (
                    u,
                    LobbyStageView::PrivateChat(f),
                    seq![
                        LobbyActionView::Tell(f, chat_live()),
                        LobbyActionView::Say(chat_accepted()),
                        LobbyActionView::StartPrivateChat(f, drop_line_end(f), drop_line_end(me)),
                    ],
                )
            } else {
                let told = if t != "Y"@ {
                    seq![LobbyActionView::Tell(f, reply_invalid())]
                } else {
                    seq![]
                };
                (
                    with_busy(with_busy(with_private_chat(u, f, false), f, false), me, false),
                    LobbyStageView::Menu,
                    then_menu(told.push(LobbyActionView::Say(request_declined()))),
                )
            }
        },
        (LobbyStageView::PrivateChat(f), LobbyEventView::ChatOver) => (
            with_busy(with_private_chat(u, f, false), f, false),
            LobbyStageView::Menu,
            seq![LobbyActionView::Say(menu_prompt())],
        ),
        (LobbyStageView::RoomName, LobbyEventView::Line(room)) => (
            u,
            LobbyStageView::InRoom,
            seq![
                LobbyActionView::OpenRoom(room),
                LobbyActionView::JoinRoom(room),
                LobbyActionView::Say(room_reminder(room)),
            ],
        ),
        (LobbyStageView::PickRoom(list), LobbyEventView::Line(c)) => {
            if list.contains(c) {
                (
                    u,
                    LobbyStageView::InRoom,
                    seq![LobbyActionView::JoinRoom(c), LobbyActionView::Say(room_reminder(c))],
                )
            } else {
                (
                    with_busy(u, me, false),
                    LobbyStageView::Menu,
                    then_menu(seq![LobbyActionView::Say(wrong_room())]),
                )
            }
        },
        (LobbyStageView::InRoom, LobbyEventView::ChatOver) => (
            with_busy(u, me, false),
            LobbyStageView::Menu,
            seq![LobbyActionView::Say(menu_prompt())],
        ),
        _ => (u, stage, seq![]),
    }
}

proof fn lemma_online_friends_online(s: Seq<Seq<char>>, online: Seq<Seq<char>>)
    ensures
        forall|k: int|
            0 <= k < online_friends(s, online).len() ==> online.contains(
                #[trigger] online_friends(s, online)[k],
            ),
{
    broadcast use vstd::seq_lib::group_filter_ensures;
}

/// A dialogue that can take a step can take the next one: the user and
/// every user the new stage refers to are still registered.
pub proof fn lemma_lobby_stays_ready(
    u: Map<Seq<char>, UserView>,
    me: Seq<char>,
    online: Seq<Seq<char>>,
    rooms: Seq<Seq<char>>,
    stage: LobbyStageView,
    event: LobbyEventView,
)
    requires
        lobby_ready(u, me, online, stage),
        event_ok(u, me, stage, event),
    ensures
        ({
            let next = lobby_next(u, me, online, rooms, stage, event);
            lobby_ready(next.0, me, online, next.1)
        }),
{
    lemma_lobby_keeps_accounts(u, me, online, rooms, stage, event);
    let next = lobby_next(u, me, online, rooms, stage, event);
    if let (LobbyStageView::Menu, LobbyEventView::Line(line)) = (stage, event) {
        let fs = online_friends(u[me].friends, online);
        lemma_online_friends_online(u[me].friends, online);
        assert forall|k: int| 0 <= k < fs.len() implies next.0.contains_key(#[trigger] fs[k]) by {
            let j: int = choose|j: int| 0 <= j < online.len() && online[j] == fs[k];
            assert(u.contains_key(online[j]));
        }
    }
}

/// The lobby never creates or removes accounts, and never changes a name
/// or a password; only adding a friend changes anyone's friends.
pub proof fn lemma_lobby_keeps_accounts(
    u: Map<Seq<char>, UserView>,
    me: Seq<char>,
    online: Seq<Seq<char>>,
    rooms: Seq<Seq<char>>,
    stage: LobbyStageView,
    event: LobbyEventView,
)
    requires
        lobby_ready(u, me, online, stage),
        event_ok(u, me, stage, event),
    ensures
        ({
            let next = lobby_next(u, me, online, rooms, stage, event);
            &&& next.0.dom() == u.dom()
            &&& forall|k: Seq<char>|
                #[trigger] u.contains_key(k) ==> next.0[k].name == u[k].name && next.0[k].password
                    == u[k].password
            &&& !(stage is AddFriend) ==> forall|k: Seq<char>|
                #[trigger] u.contains_key(k) ==> next.0[k].friends == u[k].friends
        }),
{
    lemma_busy_flag(u, me, true);
    lemma_busy_flag(u, me, false);
    match (stage, event) {
        (LobbyStageView::AddFriend, LobbyEventView::Line(f)) => {
            if u.contains_key(f) {
                assert(with_friend(u, me, f).dom() =~= u.dom());
                lemma_busy_flag(with_friend(u, me, f), me, false);
            }
        },
        (LobbyStageView::PickFriend(list), LobbyEventView::Line(c)) => {
            if list.contains(c) {
                let k: int = choose|k: int| 0 <= k < list.len() && list[k] == c;
                assert(u.contains_key(list[k]));
                lemma_private_chat_flag(u, c, true);
                lemma_busy_flag(with_private_chat(u, c, true), c, true);
            }
        },
        (LobbyStageView::AwaitingReply(f), LobbyEventView::FriendLine(reply)) => {
            lemma_private_chat_flag(u, f, false);
            lemma_busy_flag(with_private_chat(u, f, false), f, false);
            lemma_busy_flag(with_busy(with_private_chat(u, f, false), f, false), me, false);
        },
        (LobbyStageView::PrivateChat(f), LobbyEventView::ChatOver) => {
            lemma_private_chat_flag(u, f, false);
            lemma_busy_flag(with_private_chat(u, f, false), f, false);
        },
        _ => {},
    }
}

/// A user busy with a command stays busy: a command line at the menu that
/// leads away from the menu marks the user busy.
pub proof fn lemma_busy_in_command(
    u: Map<Seq<char>, UserView>,
    me: Seq<char>,
    online: Seq<Seq<char>>,
    rooms: Seq<Seq<char>>,
    line: Seq<char>,
)
    requires
        lobby_ready(u, me, online, LobbyStageView::Menu),
        event_ok(u, me, LobbyStageView::Menu, LobbyEventView::Line(line)),
    ensures
        ({
            let next = lobby_next(
                u,
                me,
                online,
                rooms,
                LobbyStageView::Menu,
                LobbyEventView::Line(line),
            );
            !(next.1 is Menu) ==> next.0[me].busy
        }),
{
}

/// A user stays busy through a whole command: from any waiting stage but
/// the menu and a private chat, a step that does not return to the menu
/// leaves a busy user busy.
pub proof fn lemma_busy_through_command(
    u: Map<Seq<char>, UserView>,
    me: Seq<char>,
    online: Seq<Seq<char>>,
    rooms: Seq<Seq<char>>,
    stage: LobbyStageView,
    event: LobbyEventView,
)
    requires
        lobby_ready(u, me, online, stage),
        event_ok(u, me, stage, event),
        !(stage is Menu),
        !(stage is PrivateChat),
        u[me].busy,
    ensures
        ({
            let next = lobby_next(u, me, online, rooms, stage, event);
            !(next.1 is Menu) ==> next.0[me].busy
        }),
{
    lemma_lobby_keeps_accounts(u, me, online, rooms, stage, event);
    if let (LobbyStageView::PickFriend(list), LobbyEventView::Line(c)) = (stage, event) {
        if list.contains(c) && !u[c].busy {
            lemma_private_chat_flag(u, c, true);
            lemma_busy_flag(with_private_chat(u, c, true), c, true);
        }
    }
}

/// Back at the menu the user is free: every step that ends at the menu,
/// from a command or from any stage but a private chat this user started,
/// leaves the user not busy.
pub proof fn lemma_free_at_menu(
    u: Map<Seq<char>, UserView>,
    me: Seq<char>,
    online: Seq<Seq<char>>,
    rooms: Seq<Seq<char>>,
    stage: LobbyStageView,
    event: LobbyEventView,
)
    requires
        lobby_ready(u, me, online, stage),
        event_ok(u, me, stage, event),
        !(stage is PrivateChat),
        !(stage is Menu) || event is Line,
    ensures
        ({
            let next = lobby_next(u, me, online, rooms, stage, event);
            next.1 is Menu ==> !next.0[me].busy
        }),
{
    lemma_lobby_keeps_accounts(u, me, online, rooms, stage, event);
}

/// A private-chat request is always withdrawn: once the asked friend
/// replies, the friend's busy and request flags are cleared, at once when
/// the request is declined, or when the chat ends when it is accepted.
pub proof fn lemma_request_withdrawn(
    u: Map<Seq<char>, UserView>,
    me: Seq<char>,
    online: Seq<Seq<char>>,
    rooms: Seq<Seq<char>>,
    friend: Seq<char>,
    reply: Seq<char>,
)
    requires
        lobby_ready(u, me, online, LobbyStageView::AwaitingReply(friend)),
    ensures
        ({
            let next = lobby_next(
                u,
                me,
                online,
                rooms,
                LobbyStageView::AwaitingReply(friend),
                LobbyEventView::FriendLine(reply),
            );
            let after = lobby_next(
                next.0,
                me,
                online,
                rooms,
                next.1,
                LobbyEventView::ChatOver,
            );
            &&& next.1 is Menu || next.1 == LobbyStageView::PrivateChat(friend)
            &&& next.1 is Menu ==> !next.0[friend].busy && !next.0[friend].private_chat
            &&& next.1 is PrivateChat ==> after.1 is Menu && !after.0[friend].busy
                && !after.0[friend].private_chat
        }),
{
}

/// The friend's reply decides the request: `start` or `N` (once the line
/// ending is removed) starts the private chat with that friend and leaves
/// the registry as it was; any other reply declines it, clears the friend's
/// busy and request flags and the user's busy flag, and returns to the
/// menu, telling the friend the reply was invalid unless it was `Y`.
pub proof fn lemma_reply_decides(
    u: Map<Seq<char>, UserView>,
    me: Seq<char>,
    online: Seq<Seq<char>>,
    rooms: Seq<Seq<char>>,
    friend: Seq<char>,
    reply: Seq<char>,
)
    requires
        lobby_ready(u, me, online, LobbyStageView::AwaitingReply(friend)),
    ensures
        ({
            let t = drop_line_end(reply);
            let next = lobby_next(
                u,
                me,
                online,
                rooms,
                LobbyStageView::AwaitingReply(friend),
                LobbyEventView::FriendLine(reply),
            );
            &&& (t == "start"@ || t == "N"@) ==> {
                &&& next.1 == LobbyStageView::PrivateChat(friend)
                &&& next.0 == u
                &&& next.2.contains(
                    LobbyActionView::StartPrivateChat(friend, drop_line_end(friend), drop_line_end(me)),
                )
            }
            &&& !(t == "start"@ || t == "N"@) ==> {
                &&& next.1 is Menu
                &&& !next.0[friend].busy && !next.0[friend].private_chat && !next.0[me].busy
                &&& forall|a, b, c| !next.2.contains(LobbyActionView::StartPrivateChat(a, b, c))
                &&& (t != "Y"@ <==> next.2.contains(LobbyActionView::Tell(friend, reply_invalid())))
            }
        }),
{
    let t = drop_line_end(reply);
    let next = lobby_next(
        u,
        me,
        online,
        rooms,
        LobbyStageView::AwaitingReply(friend),
        LobbyEventView::FriendLine(reply),
    );
    if t == "start"@ || t == "N"@ {
        assert(next.2[2] == LobbyActionView::StartPrivateChat(
            friend,
            drop_line_end(friend),
            drop_line_end(me),
        ));
    } else {
        let acts = next.2;
        assert forall|a, b, c| !acts.contains(LobbyActionView::StartPrivateChat(a, b, c)) by {
            if acts.contains(LobbyActionView::StartPrivateChat(a, b, c)) {
                let k: int = choose|k: int|
                    0 <= k < acts.len() && acts[k] == LobbyActionView::StartPrivateChat(a, b, c);
            }
        }
        if t != "Y"@ {
            assert(acts[0] == LobbyActionView::Tell(friend, reply_invalid()));
        } else {
            if acts.contains(LobbyActionView::Tell(friend, reply_invalid())) {
                let k: int = choose|k: int|
                    0 <= k < acts.len() && acts[k] == LobbyActionView::Tell(friend, reply_invalid());
                assert(k < 2);
            }
        }
    }
}

/// Joining lists every open room: at the menu, with no pending request, a
/// command starting with `J` and some rooms open says each room's name, in
/// order, and then asks for one, waiting for the choice among exactly those
/// rooms; with no room open it says so and returns to the menu, the user
/// free.
pub proof fn lemma_join_lists_rooms(
    u: Map<Seq<char>, UserView>,
    me: Seq<char>,
    online: Seq<Seq<char>>,
    rooms: Seq<Seq<char>>,
    line: Seq<char>,
)
    requires
        lobby_ready(u, me, online, LobbyStageView::Menu),
        !u[me].private_chat,
        drop_line_end(line).len() > 0,
        drop_line_end(line)[0] == 'J',
    ensures
        ({
            let next = lobby_next(
                u,
                me,
                online,
                rooms,
                LobbyStageView::Menu,
                LobbyEventView::Line(line),
            );
            &&& rooms.len() > 0 ==> {
                &&& next.1 == LobbyStageView::PickRoom(rooms)
                &&& next.2.len() == rooms.len() + 1
                &&& forall|k: int| 0 <= k < rooms.len() ==> next.2[k] == LobbyActionView::Say(rooms[k])
                &&& next.2[rooms.len() as int] == LobbyActionView::Say(ask_room())
                &&& next.0[me].busy
            }
            &&& rooms.len() == 0 ==> next.1 is Menu && !next.0[me].busy && next.2[0]
                == LobbyActionView::Say(no_rooms())
        }),
{
    let next = lobby_next(u, me, online, rooms, LobbyStageView::Menu, LobbyEventView::Line(line));
    if rooms.len() > 0 {
        assert forall|k: int| 0 <= k < rooms.len() implies next.2[k] == LobbyActionView::Say(
            rooms[k],
        ) by {
            assert(say_each(rooms)[k] == LobbyActionView::Say(rooms[k]));
        }
    }
}

/// Chatting lists exactly the friends who are online: at the menu, with no
/// pending request, a command starting with `F` lists, after a header, each
/// friend of the user who is online (and no one else), then asks for one,
/// waiting for the choice among exactly those; when no friend is online it
/// says so and returns to the menu, the user free.
pub proof fn lemma_chat_lists_online_friends(
    u: Map<Seq<char>, UserView>,
    me: Seq<char>,
    online: Seq<Seq<char>>,
    rooms: Seq<Seq<char>>,
    line: Seq<char>,
)
    requires
        lobby_ready(u, me, online, LobbyStageView::Menu),
        !u[me].private_chat,
        drop_line_end(line).len() > 0,
        drop_line_end(line)[0] == 'F',
    ensures
        ({
            let next = lobby_next(
                u,
                me,
                online,
                rooms,
                LobbyStageView::Menu,
                LobbyEventView::Line(line),
            );
            &&& (exists|f: Seq<char>| u[me].friends.contains(f) && online.contains(f)) ==> exists|
                list: Seq<Seq<char>>,
            |
                {
                    &&& next.1 == LobbyStageView::PickFriend(list)
                    &&& forall|f: Seq<char>|
                        list.contains(f) <==> (u[me].friends.contains(f) && online.contains(f))
                    &&& next.2.len() == list.len() + 2
                    &&& next.2[0] == LobbyActionView::Say(online_list_header())
                    &&& forall|k: int|
                        0 <= k < list.len() ==> next.2[k + 1] == LobbyActionView::Say(list[k])
                    &&& next.2[list.len() + 1int] == LobbyActionView::Say(ask_friend())
                    &&& next.0[me].busy
                }
            &&& !(exists|f: Seq<char>| u[me].friends.contains(f) && online.contains(f)) ==> {
                &&& next.1 is Menu
                &&& !next.0[me].busy
                &&& next.2[0] == LobbyActionView::Say(no_friends_online())
            }
        }),
{
    broadcast use vstd::seq_lib::group_filter_ensures;

    let fs = online_friends(u[me].friends, online);
    let next = lobby_next(u, me, online, rooms, LobbyStageView::Menu, LobbyEventView::Line(line));
    assert forall|f: Seq<char>| fs.contains(f) <==> (u[me].friends.contains(f) && online.contains(f)) by {
        if fs.contains(f) {
            let k: int = choose|k: int| 0 <= k < fs.len() && fs[k] == f;
            assert(online.contains(fs[k]));
            reveal(Seq::filter);
            lemma_filter_subset(u[me].friends, online, f);
        }
        if u[me].friends.contains(f) && online.contains(f) {
            let k: int = choose|k: int| 0 <= k < u[me].friends.len() && u[me].friends[k] == f;
            assert(fs.contains(u[me].friends[k]));
        }
    }
    if exists|f: Seq<char>| u[me].friends.contains(f) && online.contains(f) {
        let f = choose|f: Seq<char>| u[me].friends.contains(f) && online.contains(f);
        assert(fs.contains(f));
        assert(fs.len() > 0);
        assert forall|k: int| 0 <= k < fs.len() implies next.2[k + 1] == LobbyActionView::Say(
            fs[k],
        ) by {
            assert(say_each(fs)[k] == LobbyActionView::Say(fs[k]));
        }
        assert(next.1 == LobbyStageView::PickFriend(fs));
    } else {
        if fs.len() > 0 {
            assert(fs.contains(fs[0]));
        }
    }
}

proof fn lemma_filter_subset(s: Seq<Seq<char>>, online: Seq<Seq<char>>, f: Seq<char>)
    requires
        online_friends(s, online).contains(f),
    ensures
        s.contains(f),
    decreases s.len(),
{
    reveal(Seq::filter);
    if s.len() > 0 {
        let d = online_friends(s.drop_last(), online);
        assert(s.drop_last().filter(|g: Seq<char>| online.contains(g)) == d);
        if d.contains(f) {
            lemma_filter_subset(s.drop_last(), online, f);
            let k: int = choose|k: int| 0 <= k < s.drop_last().len() && s.drop_last()[k] == f;
            assert(s[k] == f);
        } else {
            assert(s[s.len() - 1] == f);
        }
    }
}

/// Adding a registered friend works: the friend is then among the user's
/// friends, every earlier friend stays, one record is saved, and the menu
/// comes back with the user free; an unregistered name adds nothing and is
/// refused.
pub proof fn lemma_add_friend_step(
    u: Map<Seq<char>, UserView>,
    me: Seq<char>,
    online: Seq<Seq<char>>,
    rooms: Seq<Seq<char>>,
    f: Seq<char>,
)
    requires
        lobby_ready(u, me, online, LobbyStageView::AddFriend),
    ensures
        ({
            let next = lobby_next(
                u,
                me,
                online,
                rooms,
                LobbyStageView::AddFriend,
                LobbyEventView::Line(f),
            );
            &&& next.1 is Menu
            &&& !next.0[me].busy
            &&& forall|g: Seq<char>| u[me].friends.contains(g) ==> next.0[me].friends.contains(g)
            &&& u.contains_key(f) ==> next.0[me].friends.contains(f) && next.2.len() == 2
                && next.2[0] is Save
            &&& !u.contains_key(f) ==> next.0[me].friends == u[me].friends && next.2[0]
                == LobbyActionView::Say(no_such_user())
        }),
{
    let fs = u[me].friends;
    assert forall|g: Seq<char>| fs.contains(g) implies add_unique(fs, f).contains(g) by {
        if !fs.contains(f) {
            let k: int = choose|k: int| 0 <= k < fs.len() && fs[k] == g;
            assert(fs.push(f)[k] == g);
        }
    }
    if !fs.contains(f) {
        assert(fs.push(f)[fs.len() as int] == f);
    }
}

/// Creating a room opens it and joins it: after a room name, the room of
/// that very name is opened, then joined, and the user is in the room.
pub proof fn lemma_create_room_step(
    u: Map<Seq<char>, UserView>,
    me: Seq<char>,
    online: Seq<Seq<char>>,
    rooms: Seq<Seq<char>>,
    room: Seq<char>,
)
    ensures
        ({
            let next = lobby_next(
                u,
                me,
                online,
                rooms,
                LobbyStageView::RoomName,
                LobbyEventView::Line(room),
            );
            &&& next.1 is InRoom
            &&& next.0 == u
            &&& next.2[0] == LobbyActionView::OpenRoom(room)
            &&& next.2[1] == LobbyActionView::JoinRoom(room)
        }),
{
}

/// The menu command is read from its first character: `A` asks for a
/// friend to add, `C` for a room to create, and any character other than
/// `A`, `F`, `C` and `J` is refused with the user free at the menu; a
/// pending chat request is answered first, whatever the line, and keeps the
/// user busy until the asker releases them.
pub proof fn lemma_menu_dispatch(
    u: Map<Seq<char>, UserView>,
    me: Seq<char>,
    online: Seq<Seq<char>>,
    rooms: Seq<Seq<char>>,
    line: Seq<char>,
)
    requires
        lobby_ready(u, me, online, LobbyStageView::Menu),
        event_ok(u, me, LobbyStageView::Menu, LobbyEventView::Line(line)),
    ensures
        ({
            let t = drop_line_end(line);
            let next = lobby_next(
                u,
                me,
                online,
                rooms,
                LobbyStageView::Menu,
                LobbyEventView::Line(line),
            );
            &&& u[me].private_chat ==> next.1 is AnsweringInvite && next.0[me].busy
                && next.2.len() == 1
            &&& !u[me].private_chat && t[0] == 'A' ==> next.1 is AddFriend && next.0[me].busy
            &&& !u[me].private_chat && t[0] == 'C' ==> next.1 is RoomName && next.0[me].busy
            &&& !u[me].private_chat && t[0] != 'A' && t[0] != 'F' && t[0] != 'C' && t[0] != 'J'
                ==> next.1 is Menu && !next.0[me].busy && next.2[0] == LobbyActionView::Say(
                invalid_command(),
            )
            &&& forall|k: Seq<char>| k != me ==> next.0[k] == u[k]
        }),
{
}

/// A message for a busy friend goes to that friend, holding the sender's
/// shown name and the message, and the sender is free at the menu.
pub proof fn lemma_direct_message_step(
    u: Map<Seq<char>, UserView>,
    me: Seq<char>,
    online: Seq<Seq<char>>,
    rooms: Seq<Seq<char>>,
    friend: Seq<char>,
    msg: Seq<char>,
)
    requires
        lobby_ready(u, me, online, LobbyStageView::DirectMessage(friend)),
    ensures
        ({
            let next = lobby_next(
                u,
                me,
                online,
                rooms,
                LobbyStageView::DirectMessage(friend),
                LobbyEventView::Line(msg),
            );
            let me_shown = drop_line_end(me);
            let head = " send you a messsage : "@;
            &&& next.1 is Menu
            &&& !next.0[me].busy
            &&& next.2[0] matches LobbyActionView::Tell(to, text) && to == friend
                && text.take(me_shown.len() as int) == me_shown
                && text.subrange((me_shown.len() + head.len()) as int, (me_shown.len() + head.len() + msg.len()) as int) == msg
        }),
{
    let me_shown = drop_line_end(me);
    let head = " send you a messsage : "@;
    let text = direct_message(me_shown, msg);
    assert(text.take(me_shown.len() as int) =~= me_shown);
    assert(text.subrange((me_shown.len() + head.len()) as int, (me_shown.len() + head.len() + msg.len()) as int) =~= msg);
}

/// Asking a free friend for a private chat marks the friend busy and asked.
pub proof fn lemma_request_marks_friend(
    u: Map<Seq<char>, UserView>,
    me: Seq<char>,
    online: Seq<Seq<char>>,
    rooms: Seq<Seq<char>>,
    list: Seq<Seq<char>>,
    choice: Seq<char>,
)
    requires
        lobby_ready(u, me, online, LobbyStageView::PickFriend(list)),
    ensures
        ({
            let next = lobby_next(
                u,
                me,
                online,
                rooms,
                LobbyStageView::PickFriend(list),
                LobbyEventView::Line(choice),
            );
            next.1 is AwaitingReply ==> next.1 == LobbyStageView::AwaitingReply(choice)
                && next.0[choice].busy && next.0[choice].private_chat && !u[choice].busy
        }),
{
}

proof fn lemma_online_push(s: Seq<Seq<char>>, x: Seq<char>, online: Seq<Seq<char>>)
    ensures
        online_friends(s.push(x), online) == if online.contains(x) {
            online_friends(s, online).push(x)
        } else {
            online_friends(s, online)
        },
{
    reveal(Seq::filter);
    assert(s.push(x).drop_last() =~= s);
}

/// The friends in `friends` that are among the `online` users, in order.
fn online_friends_of(friends: &Vec<String>, online: &Vec<String>) -> (res: Vec<String>)
    ensures
        views(res@) == online_friends(views(friends@), views(online@)),
{
    let mut res: Vec<String> = Vec::new();
    let mut i: usize = 0;
    proof {
        reveal(Seq::filter);
        assert(views(friends@).take(0) =~= Seq::<Seq<char>>::empty());
        assert(views(res@) =~= Seq::<Seq<char>>::empty());
    }
    while i < friends.len()
        invariant
            i <= friends@.len(),
            views(res@) == online_friends(views(friends@).take(i as int), views(online@)),
        decreases friends@.len() - i,
    {
        let ghost before = views(res@);
        proof {
            assert(views(friends@).take(i + 1) =~= views(friends@).take(i as int).push(
                friends@[i as int]@,
            ));
            lemma_online_push(views(friends@).take(i as int), friends@[i as int]@, views(online@));
        }
        if contains_text(online, &friends[i]) {
            res.push(friends[i].clone());
            assert(views(res@) =~= before.push(friends@[i as int]@));
        }
        i = i + 1;
    }
    assert(views(friends@).take(i as int) =~= views(friends@));
    res
}

/// Appends an action saying each of `texts`, in order.
fn say_all(acts: &mut Vec<LobbyAction>, texts: &Vec<String>)
    ensures
        lobby_actions(final(acts)@) == lobby_actions(old(acts)@) + say_each(views(texts@)),
{
    let ghost start = lobby_actions(acts@);
    let mut k: usize = 0;
    assert(say_each(views(texts@).take(0)) =~= Seq::<LobbyActionView>::empty());
    assert(lobby_actions(acts@) =~= start + say_each(views(texts@).take(0)));
    while k < texts.len()
        invariant
            k <= texts@.len(),
            lobby_actions(acts@) == start + say_each(views(texts@).take(k as int)),
        decreases texts@.len() - k,
    {
        let ghost before = lobby_actions(acts@);
        acts.push(LobbyAction::Say(texts[k].clone()));
        assert(lobby_actions(acts@) =~= before.push(LobbyActionView::Say(texts@[k as int]@)));
        assert(say_each(views(texts@).take(k + 1)) =~= say_each(views(texts@).take(k as int)).push(
            LobbyActionView::Say(texts@[k as int]@),
        ));
        k = k + 1;
    }
    assert(views(texts@).take(k as int) =~= views(texts@));
}

fn menu_text() -> (res: String)
    ensures
        res@ == menu_prompt(),
{
    text("Enter F to chat with friend or A to add new friend\nEnter J for Join or C for Create chat rooms : ")
}

/// The lobby's first stage, with the menu to show.
pub fn lobby_start() -> (res: (LobbyStage, Vec<LobbyAction>))
    ensures
        res.0@ == LobbyStageView::Menu,
        lobby_actions(res.1@) == seq![LobbyActionView::Say(menu_prompt())],
{
    let mut acts: Vec<LobbyAction> = Vec::new();
    acts.push(LobbyAction::Say(menu_text()));
    assert(lobby_actions(acts@) =~= seq![LobbyActionView::Say(menu_prompt())]);
    (LobbyStage::Menu, acts)
}

/// Whether `lobby_step` is defined on these arguments: the user, the
/// online users and the users the stage refers to are registered, and a
/// command at the menu is not empty unless it answers a chat request.
pub fn lobby_step_ready(
    users: &mut User_info_map,
    me: &String,
    online: &Vec<String>,
    stage: &LobbyStage,
    event: &LobbyEvent,
) -> (res: bool)
    requires
        old(users).wf(),
    ensures
        *final(users) == *old(users),
        res == (lobby_ready(old(users)@, me@, views(online@), stage@) && event_ok(
            old(users)@,
            me@,
            stage@,
            event@,
        )),
{
    if !users.contains_user(me.clone()) {
        return false;
    }
    let mut k: usize = 0;
    while k < online.len()
        invariant
            k <= online@.len(),
            users.wf(),
            *users == *old(users),
            forall|j: int| 0 <= j < k ==> users@.contains_key(#[trigger] views(online@)[j]),
        decreases online@.len() - k,
    {
        assert(views(online@)[k as int] == online@[k as int]@);
        if !users.contains_user(online[k].clone()) {
            return false;
        }
        k = k + 1;
    }
    let stage_ok = match stage {
        LobbyStage::PickFriend { online: list } => {
            let mut j: usize = 0;
            let mut ok = true;
            while j < list.len()
                invariant
                    j <= list@.len(),
                    users.wf(),
                    *users == *old(users),
                    ok == forall|i: int| 0 <= i < j ==> users@.contains_key(#[trigger] views(list@)[i]),
                decreases list@.len() - j,
            {
                assert(views(list@)[j as int] == list@[j as int]@);
                if !users.contains_user(list[j].clone()) {
                    ok = false;
                }
                j = j + 1;
            }
            assert(views(list@).len() == j);
            assert(ok == stage_refs_ready(users@, stage@));
            ok
        },
        LobbyStage::AwaitingReply { friend } => users.contains_user(friend.clone()),
        LobbyStage::PrivateChat { friend } => users.contains_user(friend.clone()),
        _ => true,
    };
    assert(stage_ok == stage_refs_ready(users@, stage@));
    if !stage_ok {
        return false;
    }
    match (stage, event) {
        (LobbyStage::Menu, LobbyEvent::Line(l)) => {
            let t = strip_line_end(l);
            t.as_str().unicode_len() > 0 || users.get_priavte_chat(me.clone())
        },
        _ => true,
    }
}

proof fn lemma_busy_twice(u: Map<Seq<char>, UserView>, me: Seq<char>, a: bool, b: bool)
    requires
        u.contains_key(me),
    ensures
        with_busy(with_busy(u, me, a), me, b) == with_busy(u, me, b),
{
    assert(with_busy(with_busy(u, me, a), me, b) =~= with_busy(u, me, b));
}

fn menu_step(
    users: &mut User_info_map,
    me: &String,
    online: &Vec<String>,
    rooms: &Vec<String>,
    line: String,
) -> (res: (LobbyStage, Vec<LobbyAction>))
    requires
        old(users).wf(),
        lobby_ready(old(users)@, me@, views(online@), LobbyStageView::Menu),
        drop_line_end(line@).len() > 0 || old(users)@[me@].private_chat,
    ensures
        final(users).wf(),
        (final(users)@, res.0@, lobby_actions(res.1@)) == menu_next(
            old(users)@,
            me@,
            views(online@),
            views(rooms@),
            line@,
        ),
{
    let ghost u = users@;
    let ghost on = views(online@);
    let ghost rs = views(rooms@);
    let ghost expected = menu_next(u, me@, on, rs, line@);
    let t = strip_line_end(&line);
    users.set_busy_true(me.clone());
    let private = users.get_priavte_chat(me.clone());
    let mut acts: Vec<LobbyAction> = Vec::new();
    let next;
    if private {
        let answer = if t == text("Yes") {
            text("you are now in private chat enter start to begin chat. \n")
        } else if t == text("No") {
            text("Decline chat request? (Y/N) \n")
        } else {
            text("Invalid response , Decline chat request? (Y/N), If Enter N chat will start\n")
        };
        acts.push(LobbyAction::Say(answer));
        next = LobbyStage::AnsweringInvite;
    } else {
        let c = t.as_str().get_char(0);
        if c == 'A' {
            acts.push(LobbyAction::Say(text("please enter your friends user name : ")));
            next = LobbyStage::AddFriend;
        } else if c == 'F' {
            let friends = users.get_friend_list(me.clone());
            assert(views(friends@) == u[me@].friends);
            let fs = online_friends_of(&friends, online);
            assert(views(fs@) == online_friends(u[me@].friends, on));
            if fs.len() == 0 {
                acts.push(LobbyAction::Say(text("no friends online bohooooo\n")));
                users.set_busy_false(me.clone());
                users.set_busy_false(me.clone());
                proof {
                    lemma_busy_twice(u, me@, true, false);
                    lemma_busy_twice(u, me@, false, false);
                }
                acts.push(LobbyAction::Say(menu_text()));
                next = LobbyStage::Menu;
            } else {
                acts.push(LobbyAction::Say(text("Here is your online friends list : \n")));
                assert(lobby_actions(acts@) =~= seq![LobbyActionView::Say(online_list_header())]);
                say_all(&mut acts, &fs);
                let ghost mid = lobby_actions(acts@);
                acts.push(LobbyAction::Say(text("Enter a friends name : ")));
                assert(lobby_actions(acts@) =~= mid.push(LobbyActionView::Say(ask_friend())));
                next = LobbyStage::PickFriend { online: fs };
            }
        } else if c == 'C' {
            acts.push(LobbyAction::Say(text("please enter chatroom name:")));
            next = LobbyStage::RoomName;
        } else if c == 'J' {
            if rooms.len() == 0 {
                acts.push(LobbyAction::Say(text("There are no live chatrooms\n")));
                users.set_busy_false(me.clone());
                proof {
                    lemma_busy_twice(u, me@, true, false);
                }
                acts.push(LobbyAction::Say(menu_text()));
                next = LobbyStage::Menu;
            } else {
                say_all(&mut acts, rooms);
                acts.push(LobbyAction::Say(text("please enther chatroom name:")));
                let mut listed: Vec<String> = Vec::new();
                let mut k: usize = 0;
                while k < rooms.len()
                    invariant
                        k <= rooms@.len(),
                        views(listed@) =~= views(rooms@).take(k as int),
                    decreases rooms@.len() - k,
                {
                    let ghost before = views(listed@);
                    listed.push(rooms[k].clone());
                    assert(views(listed@) =~= before.push(rooms@[k as int]@));
                    assert(views(rooms@).take(k + 1) =~= views(rooms@).take(k as int).push(
                        rooms@[k as int]@,
                    ));
                    k = k + 1;
                }
                assert(views(rooms@).take(k as int) =~= views(rooms@));
                next = LobbyStage::PickRoom { rooms: listed };
            }
        } else {
            acts.push(LobbyAction::Say(text("please enter valid response\n")));
            users.set_busy_false(me.clone());
            proof {
                lemma_busy_twice(u, me@, true, false);
            }
            acts.push(LobbyAction::Say(menu_text()));
            next = LobbyStage::Menu;
        }
    }
    assert(lobby_actions(acts@) =~= expected.2);
    (next, acts)
}

/// The text a user shown as `me` leaves for a busy friend.
fn direct_message_text(me: &String, msg: &String) -> (res: String)
    ensures
        res@ == direct_message(drop_line_end(me@), msg@),
{
    let mut m = strip_line_end(me);
    m.append(" send you a messsage : ");
    m.append(msg.as_str());
    m.append("(If you want to reply , you have to go back to looby) \n");
    m
}

/// The request shown to a friend asked for a private chat.
fn chat_request_text(me: &String) -> (res: String)
    ensures
        res@ == chat_request(drop_line_end(me@)),
{
    let mut m = text("\n");
    let shown = strip_line_end(me);
    m.append(shown.as_str());
    m.append(" would like to chat with you , Accept by entering Yes or else No\n");
    m
}

/// The note shown on entering a room.
fn room_reminder_text(room: &String) -> (res: String)
    ensures
        res@ == room_reminder(room@),
{
    let mut m = text("Now you are in Chatroom ");
    m.append(room.as_str());
    m.append(",type in 'QUIT' to quit to go back to lobby\n");
    m
}

fn pick_friend_step(
    users: &mut User_info_map,
    me: &String,
    online: &Vec<String>,
    rooms: &Vec<String>,
    list: Vec<String>,
    c: String,
) -> (res: (LobbyStage, Vec<LobbyAction>))
    requires
        old(users).wf(),
        lobby_ready(old(users)@, me@, views(online@), LobbyStageView::PickFriend(views(list@))),
    ensures
        final(users).wf(),
        (final(users)@, res.0@, lobby_actions(res.1@)) == lobby_next(
            old(users)@,
            me@,
            views(online@),
            views(rooms@),
            LobbyStageView::PickFriend(views(list@)),
            LobbyEventView::Line(c@),
        ),
{
    let ghost u = users@;
    let ghost expected = lobby_next(
        u,
        me@,
        views(online@),
        views(rooms@),
        LobbyStageView::PickFriend(views(list@)),
        LobbyEventView::Line(c@),
    );
    let mut acts: Vec<LobbyAction> = Vec::new();
    let next;
    if contains_text(&list, &c) {
        proof {
            let k: int = choose|k: int| 0 <= k < views(list@).len() && views(list@)[k] == c@;
            assert(u.contains_key(views(list@)[k]));
        }
        let busy = users.get_busy(c.clone());
        if busy {
            acts.push(LobbyAction::Say(text("User is busy , you can only send him/her a message : ")));
            next = LobbyStage::DirectMessage { friend: c };
        } else {
            users.set_private_chat_true(c.clone());
            users.set_busy_true(c.clone());
            acts.push(LobbyAction::Tell { friend: c.clone(), text: chat_request_text(me) });
            acts.push(LobbyAction::Say(text("waiting for other user to accept \n")));
            next = LobbyStage::AwaitingReply { friend: c };
        }
    } else {
        acts.push(LobbyAction::Say(text("Wrong friend name ! \n")));
        users.set_busy_false(me.clone());
        acts.push(LobbyAction::Say(menu_text()));
        next = LobbyStage::Menu;
    }
    assert(lobby_actions(acts@) =~= expected.2);
    (next, acts)
}

fn reply_step(
    users: &mut User_info_map,
    me: &String,
    online: &Vec<String>,
    rooms: &Vec<String>,
    f: String,
    reply: String,
) -> (res: (LobbyStage, Vec<LobbyAction>))
    requires
        old(users).wf(),
        lobby_ready(old(users)@, me@, views(online@), LobbyStageView::AwaitingReply(f@)),
    ensures
        final(users).wf(),
        (final(users)@, res.0@, lobby_actions(res.1@)) == lobby_next(
            old(users)@,
            me@,
            views(online@),
            views(rooms@),
            LobbyStageView::AwaitingReply(f@),
            LobbyEventView::FriendLine(reply@),
        ),
{
    let ghost u = users@;
    let ghost expected = lobby_next(
        u,
        me@,
        views(online@),
        views(rooms@),
        LobbyStageView::AwaitingReply(f@),
        LobbyEventView::FriendLine(reply@),
    );
    let t = strip_line_end(&reply);
    let mut acts: Vec<LobbyAction> = Vec::new();
    let next;
    if t == text("start") || t == text("N") {
        acts.push(LobbyAction::Tell { friend: f.clone(), text: text("Chat is live\n") });
        acts.push(LobbyAction::Say(text("Accepted , you can now start chatting\n")));
        acts.push(
            LobbyAction::StartPrivateChat {
                friend: f.clone(),
                friend_shown: strip_line_end(&f),
                me_shown: strip_line_end(me),
            },
        );
        next = LobbyStage::PrivateChat { friend: f };
    } else {
        if t != text("Y") {
            acts.push(LobbyAction::Tell { friend: f.clone(), text: text("Invalid response , Request Declined\n") });
        }
        users.set_private_chat_false(f.clone());
        users.set_busy_false(f.clone());
        acts.push(LobbyAction::Say(text("Your request is Declined\n")));
        users.set_busy_false(me.clone());
        acts.push(LobbyAction::Say(menu_text()));
        next = LobbyStage::Menu;
    }
    assert(lobby_actions(acts@) =~= expected.2);
    (next, acts)
}

/// One step of the lobby dialogue of the user `me`, as `lobby_next` states
/// it. `online` holds the users who are logged in and `rooms` the names of
/// the open rooms.
pub fn lobby_step(
    users: &mut User_info_map,
    me: &String,
    online: &Vec<String>,
    rooms: &Vec<String>,
    stage: LobbyStage,
    event: LobbyEvent,
) -> (res: (LobbyStage, Vec<LobbyAction>))
    requires
        old(users).wf(),
        lobby_ready(old(users)@, me@, views(online@), stage@),
        event_ok(old(users)@, me@, stage@, event@),
    ensures
        final(users).wf(),
        (final(users)@, res.0@, lobby_actions(res.1@)) == lobby_next(
            old(users)@,
            me@,
            views(online@),
            views(rooms@),
            stage@,
            event@,
        ),
{
    let ghost u = users@;
    let ghost expected = lobby_next(u, me@, views(online@), views(rooms@), stage@, event@);
    match (stage, event) {
        (LobbyStage::Menu, LobbyEvent::Line(line)) => menu_step(users, me, online, rooms, line),
        (LobbyStage::AnsweringInvite, LobbyEvent::Tick) => {
            let mut acts: Vec<LobbyAction> = Vec::new();
            if users.get_busy(me.clone()) {
                assert(lobby_actions(acts@) =~= expected.2);
                (LobbyStage::AnsweringInvite, acts)
            } else {
                acts.push(LobbyAction::Say(menu_text()));
                assert(lobby_actions(acts@) =~= expected.2);
                (LobbyStage::Menu, acts)
            }
        },
        (LobbyStage::AddFriend, LobbyEvent::Line(f)) => {
            let mut acts: Vec<LobbyAction> = Vec::new();
            if users.contains_user(f.clone()) {
                let record = users.add_friend(me.clone(), f);
                acts.push(LobbyAction::Save(record));
                users.set_busy_false(me.clone());
                users.set_busy_false(me.clone());
                proof {
                    lemma_busy_twice(with_friend(u, me@, expected.0[me@].name), me@, false, false);
                }
            } else {
                acts.push(LobbyAction::Say(text("no such user id\n")));
                users.set_busy_false(me.clone());
                users.set_busy_false(me.clone());
                proof {
                    lemma_busy_twice(u, me@, false, false);
                }
            }
            acts.push(LobbyAction::Say(menu_text()));
            assert(lobby_actions(acts@) =~= expected.2);
            (LobbyStage::Menu, acts)
        },
        (LobbyStage::PickFriend { online: list }, LobbyEvent::Line(c)) => pick_friend_step(
            users,
            me,
            online,
            rooms,
            list,
            c,
        ),
        (LobbyStage::DirectMessage { friend }, LobbyEvent::Line(msg)) => {
            let mut acts: Vec<LobbyAction> = Vec::new();
            acts.push(LobbyAction::Tell { friend, text: direct_message_text(me, &msg) });
            users.set_busy_false(me.clone());
            acts.push(LobbyAction::Say(menu_text()));
            assert(lobby_actions(acts@) =~= expected.2);
            (LobbyStage::Menu, acts)
        },
        (LobbyStage::AwaitingReply { friend }, LobbyEvent::FriendLine(reply)) => reply_step(
            users,
            me,
            online,
            rooms,
            friend,
            reply,
        ),
        (LobbyStage::PrivateChat { friend }, LobbyEvent::ChatOver) => {
            let mut acts: Vec<LobbyAction> = Vec::new();
            users.set_private_chat_false(friend.clone());
            users.set_busy_false(friend);
            acts.push(LobbyAction::Say(menu_text()));
            assert(lobby_actions(acts@) =~= expected.2);
            (LobbyStage::Menu, acts)
        },
        (LobbyStage::RoomName, LobbyEvent::Line(room)) => {
            let mut acts: Vec<LobbyAction> = Vec::new();
            acts.push(LobbyAction::OpenRoom(room.clone()));
            acts.push(LobbyAction::JoinRoom(room.clone()));
            acts.push(LobbyAction::Say(room_reminder_text(&room)));
            assert(lobby_actions(acts@) =~= expected.2);
            (LobbyStage::InRoom, acts)
        },
        (LobbyStage::PickRoom { rooms: list }, LobbyEvent::Line(c)) => {
            let mut acts: Vec<LobbyAction> = Vec::new();
            if contains_text(&list, &c) {
                acts.push(LobbyAction::JoinRoom(c.clone()));
                acts.push(LobbyAction::Say(room_reminder_text(&c)));
                assert(lobby_actions(acts@) =~= expected.2);
                (LobbyStage::InRoom, acts)
            } else {
                acts.push(LobbyAction::Say(text("Wrong chatroom name! \n")));
                users.set_busy_false(me.clone());
                acts.push(LobbyAction::Say(menu_text()));
                assert(lobby_actions(acts@) =~= expected.2);
                (LobbyStage::Menu, acts)
            }
        },
        (LobbyStage::InRoom, LobbyEvent::ChatOver) => {
            let mut acts: Vec<LobbyAction> = Vec::new();
            users.set_busy_false(me.clone());
            acts.push(LobbyAction::Say(menu_text()));
            assert(lobby_actions(acts@) =~= expected.2);
            (LobbyStage::Menu, acts)
        },
        (stage, _) => {
            let acts: Vec<LobbyAction> = Vec::new();
            assert(lobby_actions(acts@) =~= expected.2);
            (stage, acts)
        },
    }
}

} // verus!
