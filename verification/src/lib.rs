//! The logic of a small multi-user chat service: the registry of user
//! accounts and the text store that persists it, the login and lobby
//! dialogues, private one-to-one chats and chat rooms that relay every
//! line to their members.

mod channel;
pub mod flag;
pub mod lobby;
pub mod login;
pub mod private;
pub mod rooms;
pub mod store;
pub mod text;
pub mod users;

pub use flag::Quit_flag;
pub use lobby::{lobby_start, lobby_step, lobby_step_ready, LobbyAction, LobbyEvent, LobbyStage};
pub use login::{login_start, login_step, LoginAction, LoginStage};
pub use private::{user_chat_turn, ChatTurn};
pub use rooms::{
    broadcast, channels, create_chatroom, group_chat_line, join_group_chat, leave_room_if_quit,
    relays_to, Group_chat,
};
pub use text::strip_line_end;
pub use users::{User_info, User_info_map};
