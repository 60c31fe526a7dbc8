//! One side of a private chat: each line one user sends is relayed to the
//! other until either side sends `QUIT`.
use vstd::prelude::*;
use vstd::string::*;
use crate::text::{drop_line_end, strip_line_end, text};

verus! {

/// What to do with a line one side of a private chat sent.
pub enum ChatTurn {
    /// The sender quits: write `to_peer` to the other side and `to_self`
    /// to the sender, and raise the other side's quit flag.
    Quit { to_peer: String, to_self: String },
    /// The other side has quit: raise its flag too and stop relaying.
    Stop,
    /// Write this text to the other side.
    Relay(String),
}

/// What happens to `line` (with its line ending) sent by the side shown as
/// `name`, when the other side has (`peer_quit`) or has not quit: `QUIT`
/// ends this side's chat, after the other side has quit any line ends it,
/// and any other line is relayed under the sender's shown name.
pub fn user_chat_turn(name: &String, line: &String, peer_quit: bool) -> (res: ChatTurn)
    ensures
        match res {
            ChatTurn::Quit { to_peer, to_self } => drop_line_end(line@) == "QUIT"@ && to_peer@
                == name@ + " has quit plz enter any key to go back to lobby \n"@ && to_self@
                == "waiting for other user to quit\n"@,
            ChatTurn::Stop => drop_line_end(line@) != "QUIT"@ && peer_quit,
            ChatTurn::Relay(t) => drop_line_end(line@) != "QUIT"@ && !peer_quit && t@ == name@
                + " : "@ + drop_line_end(line@) + "\n"@,
        },
{
    let said = strip_line_end(line);
    if said == text("QUIT") {
        let mut to_peer = name.clone();
        to_peer.append(" has quit plz enter any key to go back to lobby \n");
        ChatTurn::Quit { to_peer, to_self: text("waiting for other user to quit\n") }
    } else if peer_quit {
        ChatTurn::Stop
    } else {
        let mut t = name.clone();
        t.append(" : ");
        t.append(said.as_str());
        t.append("\n");
        ChatTurn::Relay(t)
    }
}

} // verus!
