//! Chat rooms: each room is a channel that every line of the room goes
//! through, and a list of members, each with the channel that delivers
//! the room's lines to that member.
use vstd::prelude::*;
use vstd::string::*;
use crate::channel::{bounded_channel, clone_receiver, clone_sender, send_line};
use crate::text::{drop_line_end, strip_line_end, text, views};

verus! {

/// Members of a room: names, each once, with the channel that delivers to
/// each.
pub type Members = Seq<(Seq<char>, chan::Sender<String>)>;

/// What is known of one room.
pub struct RoomView {
    /// The channel into which the room's lines are posted.
    pub sender: chan::Sender<String>,
    /// The receiving end of that channel, from which the room's relay reads.
    pub receiver: chan::Receiver<String>,
    /// The members, in the order they joined.
    pub members: Members,
}

/// No name occurs twice among the members.
pub open spec fn unique_members(ms: Members) -> bool {
    forall|i: int, j: int| 0 <= i < j < ms.len() ==> ms[i].0 != ms[j].0
}

/// `name` is a member.
pub open spec fn has_member(ms: Members, name: Seq<char>) -> bool {
    exists|i: int| 0 <= i < ms.len() && ms[i].0 == name
}

/// The position of member `name`.
pub open spec fn member_index(ms: Members, name: Seq<char>) -> int {
    choose|i: int| 0 <= i < ms.len() && ms[i].0 == name
}

/// The channel that delivers to member `name`.
pub open spec fn member_sender(ms: Members, name: Seq<char>) -> chan::Sender<String> {
    ms[member_index(ms, name)].1
}

/// The members with `name` delivered to through `s`: a member's channel is
/// replaced in place, a new member is added last.
pub open spec fn put_member(ms: Members, name: Seq<char>, s: chan::Sender<String>) -> Members {
    if has_member(ms, name) {
        ms.update(member_index(ms, name), (name, s))
    } else {
        ms.push((name, s))
    }
}

/// The members without `name`.
pub open spec fn drop_member(ms: Members, name: Seq<char>) -> Members {
    if has_member(ms, name) {
        ms.remove(member_index(ms, name))
    } else {
        ms
    }
}

/// The channels of all members, in the members' order.
pub open spec fn member_senders(ms: Members) -> Seq<chan::Sender<String>> {
    ms.map_values(|p: (Seq<char>, chan::Sender<String>)| p.1)
}

/// A member who joins is delivered to through the channel given.
pub proof fn lemma_put_member(ms: Members, name: Seq<char>, s: chan::Sender<String>)
    requires
        unique_members(ms),
    ensures
        unique_members(put_member(ms, name, s)),
        has_member(put_member(ms, name, s), name),
        member_sender(put_member(ms, name, s), name) == s,
        forall|other: Seq<char>|
            other != name ==> (has_member(put_member(ms, name, s), other) == has_member(ms, other)),
        forall|other: Seq<char>|
            other != name && has_member(ms, other) ==> member_sender(put_member(ms, name, s), other)
                == member_sender(ms, other),
{
    lemma_put_member_basic(ms, name, s);
    let r = put_member(ms, name, s);
    assert forall|other: Seq<char>| other != name && has_member(ms, other) implies member_sender(
        r,
        other,
    ) == member_sender(ms, other) by {
        let j: int = member_index(ms, other);
        lemma_index_of(ms, j);
        assert(r[j] == ms[j]);
        lemma_index_of(r, j);
    }
}

/// In a member list without repeated names, a member's position is where
/// its name stands.
pub proof fn lemma_index_of(ms: Members, j: int)
    requires
        unique_members(ms),
        0 <= j < ms.len(),
    ensures
        has_member(ms, ms[j].0),
        member_index(ms, ms[j].0) == j,
{
    assert(has_member(ms, ms[j].0));
    let k: int = member_index(ms, ms[j].0);
    if k != j {
        if k < j {
            assert(ms[k].0 != ms[j].0);
        } else {
            assert(ms[j].0 != ms[k].0);
        }
    }
}

proof fn lemma_put_member_basic(ms: Members, name: Seq<char>, s: chan::Sender<String>)
    requires
        unique_members(ms),
    ensures
        unique_members(put_member(ms, name, s)),
        has_member(put_member(ms, name, s), name),
        member_sender(put_member(ms, name, s), name) == s,
        forall|other: Seq<char>|
            other != name ==> (has_member(put_member(ms, name, s), other) == has_member(ms, other)),
{
    let r = put_member(ms, name, s);
    if has_member(ms, name) {
        let i: int = member_index(ms, name);
        assert(r[i].0 == name);
        assert forall|a: int, b: int| 0 <= a < b < r.len() implies r[a].0 != r[b].0 by {
            assert(ms[a].0 != ms[b].0);
        }
        assert(member_index(r, name) == i);
        assert forall|other: Seq<char>| other != name implies (has_member(r, other) == has_member(
            ms,
            other,
        )) by {
            if has_member(r, other) {
                let j: int = choose|j: int| 0 <= j < r.len() && r[j].0 == other;
                assert(ms[j].0 == other);
            }
            if has_member(ms, other) {
                let j: int = choose|j: int| 0 <= j < ms.len() && ms[j].0 == other;
                assert(r[j].0 == other);
            }
        }
    } else {
        let n: int = ms.len() as int;
        assert(r[n].0 == name);
        assert forall|a: int, b: int| 0 <= a < b < r.len() implies r[a].0 != r[b].0 by {
            if b == n {
                assert(ms[a].0 != name);
            } else {
                assert(ms[a].0 != ms[b].0);
            }
        }
        assert(member_index(r, name) == n);
        assert forall|other: Seq<char>| other != name implies (has_member(r, other) == has_member(
            ms,
            other,
        )) by {
            if has_member(r, other) {
                let j: int = choose|j: int| 0 <= j < r.len() && r[j].0 == other;
                assert(ms[j].0 == other);
            }
            if has_member(ms, other) {
                let j: int = choose|j: int| 0 <= j < ms.len() && ms[j].0 == other;
                assert(r[j].0 == other);
            }
        }
    }
}

/// A member who leaves is no longer a member, and the others stay.
pub proof fn lemma_drop_member(ms: Members, name: Seq<char>)
    requires
        unique_members(ms),
    ensures
        unique_members(drop_member(ms, name)),
        !has_member(drop_member(ms, name), name),
        forall|other: Seq<char>|
            other != name ==> (has_member(drop_member(ms, name), other) == has_member(ms, other)),
        forall|other: Seq<char>|
            other != name && has_member(ms, other) ==> member_sender(drop_member(ms, name), other)
                == member_sender(ms, other),
        has_member(ms, name) ==> drop_member(ms, name).len() + 1 == ms.len(),
{
    lemma_drop_member_basic(ms, name);
    let r = drop_member(ms, name);
    assert forall|other: Seq<char>| other != name && has_member(ms, other) implies member_sender(
        r,
        other,
    ) == member_sender(ms, other) by {
        let j: int = member_index(ms, other);
        lemma_index_of(ms, j);
        if has_member(ms, name) {
            let i: int = member_index(ms, name);
            assert(j != i);
            let j2: int = if j < i { j } else { j - 1 };
            assert(r[j2] == ms[j]);
            lemma_index_of(r, j2);
        } else {
            lemma_index_of(r, j);
        }
    }
}

proof fn lemma_drop_member_basic(ms: Members, name: Seq<char>)
    requires
        unique_members(ms),
    ensures
        unique_members(drop_member(ms, name)),
        !has_member(drop_member(ms, name), name),
        forall|other: Seq<char>|
            other != name ==> (has_member(drop_member(ms, name), other) == has_member(ms, other)),
{
    let r = drop_member(ms, name);
    if has_member(ms, name) {
        let i: int = member_index(ms, name);
        assert forall|a: int, b: int| 0 <= a < b < r.len() implies r[a].0 != r[b].0 by {
            let a2: int = if a < i { a } else { a + 1 };
            let b2: int = if b < i { b } else { b + 1 };
            assert(ms[a2].0 != ms[b2].0);
        }
        assert(!has_member(r, name)) by {
            if has_member(r, name) {
                let j: int = choose|j: int| 0 <= j < r.len() && r[j].0 == name;
                let j2: int = if j < i { j } else { j + 1 };
                assert(ms[j2].0 == name);
                if j2 < i {
                    assert(ms[j2].0 != ms[i].0);
                } else {
                    assert(ms[i].0 != ms[j2].0);
                }
            }
        }
        assert forall|other: Seq<char>| other != name implies (has_member(r, other) == has_member(
            ms,
            other,
        )) by {
            if has_member(r, other) {
                let j: int = choose|j: int| 0 <= j < r.len() && r[j].0 == other;
                let j2: int = if j < i { j } else { j + 1 };
                assert(ms[j2].0 == other);
            }
            if has_member(ms, other) {
                let j: int = choose|j: int| 0 <= j < ms.len() && ms[j].0 == other;
                assert(j != i);
                let j2: int = if j < i { j } else { j - 1 };
                assert(r[j2].0 == other);
            }
        }
    }
}

/// The room with `name` delivered to through `s`.
pub open spec fn with_member(r: RoomView, name: Seq<char>, s: chan::Sender<String>) -> RoomView {
    RoomView { members: put_member(r.members, name, s), ..r }
}

/// The room without member `name`.
pub open spec fn without_member(r: RoomView, name: Seq<char>) -> RoomView {
    RoomView { members: drop_member(r.members, name), ..r }
}

/// Joining a room and leaving it again restores the rooms as they were,
/// for a user who was not a member.
pub proof fn lemma_join_then_leave(
    g: Map<Seq<char>, RoomView>,
    room: Seq<char>,
    name: Seq<char>,
    s: chan::Sender<String>,
)
    requires
        g.contains_key(room),
        unique_members(g[room].members),
        !has_member(g[room].members, name),
    ensures
        ({
            let joined = g.insert(room, with_member(g[room], name, s));
            joined.insert(room, without_member(joined[room], name)) == g
        }),
{
    let ms = g[room].members;
    lemma_put_member(ms, name, s);
    let r = put_member(ms, name, s);
    assert(member_index(r, name) == ms.len());
    assert(r.remove(ms.len() as int) =~= ms);
    let joined = g.insert(room, with_member(g[room], name, s));
    assert(without_member(joined[room], name) == g[room]);
    assert(joined.insert(room, without_member(joined[room], name)) =~= g);
}

/// One room: its channel and its members.
pub struct channels {
    sender: chan::Sender<String>,
    receiver: chan::Receiver<String>,
    member_names: Vec<String>,
    member_senders: Vec<chan::Sender<String>>,
}

impl View for channels {
    type V = RoomView;

    closed spec fn view(&self) -> RoomView {
        RoomView {
            sender: self.sender,
            receiver: self.receiver,
            members: Seq::new(
                self.member_names@.len(),
                |i: int| (self.member_names@[i]@, self.member_senders@[i]),
            ),
        }
    }
}

impl channels {
    /// The two member lists line up and no name is listed twice.
    pub closed spec fn wf(&self) -> bool {
        &&& self.member_names@.len() == self.member_senders@.len()
        &&& unique_members(self@.members)
    }

    /// A room lists each member once.
    pub proof fn lemma_members_unique(&self)
        requires
            self.wf(),
        ensures
            unique_members(self@.members),
    {
    }

    fn find(&self, name: &String) -> (res: Option<usize>)
        requires
            self.wf(),
        ensures
            match res {
                Some(i) => i < self@.members.len() && member_index(self@.members, name@) == i
                    && has_member(self@.members, name@),
                None => !has_member(self@.members, name@),
            },
    {
        let ghost ms = self@.members;
        let mut i: usize = 0;
        while i < self.member_names.len()
            invariant
                self.wf(),
                ms == self@.members,
                i <= self.member_names@.len(),
                forall|j: int| 0 <= j < i ==> self.member_names@[j]@ != name@,
            decreases self.member_names@.len() - i,
        {
            if self.member_names[i] == *name {
                assert(ms[i as int].0 == name@);
                let ghost k: int = member_index(ms, name@);
                assert(k == i) by {
                    if k != i {
                        if k < i {
                            assert(ms[k].0 != ms[i as int].0);
                        } else {
                            assert(ms[i as int].0 != ms[k].0);
                        }
                    }
                }
                return Some(i);
            }
            i = i + 1;
        }
        assert(!has_member(ms, name@)) by {
            if has_member(ms, name@) {
                let j: int = choose|j: int| 0 <= j < ms.len() && ms[j].0 == name@;
                assert(self.member_names@[j]@ == name@);
            }
        }
        None
    }

    fn empty(sender: chan::Sender<String>, receiver: chan::Receiver<String>) -> (res: channels)
        ensures
            res.wf(),
            res@ == (RoomView { sender, receiver, members: seq![] }),
    {
        let res = channels {
            sender,
            receiver,
            member_names: Vec::new(),
            member_senders: Vec::new(),
        };
        assert(res@.members =~= Members::empty());
        res
    }

    /// Adds member `name`, delivered to through `sender`; a member of that
    /// name gets the new channel.
    pub fn add_member(&mut self, name: String, sender: chan::Sender<String>)
        requires
            old(self).wf(),
        ensures
            final(self).wf(),
            final(self)@ == with_member(old(self)@, name@, sender),
    {
        let ghost ms = self@.members;
        let ghost nv = name@;
        proof {
            lemma_put_member(ms, name@, sender);
        }
        match self.find(&name) {
            Some(i) => {
                self.member_senders.set(i, sender);
                assert(self@.members =~= put_member(ms, nv, sender));
            },
            None => {
                self.member_names.push(name);
                self.member_senders.push(sender);
                assert(self@.members =~= put_member(ms, nv, sender));
            },
        }
    }

    /// Removes member `name`, if there is one.
    pub fn remove_member(&mut self, name: &String)
        requires
            old(self).wf(),
        ensures
            final(self).wf(),
            final(self)@ == without_member(old(self)@, name@),
    {
        let ghost ms = self@.members;
        proof {
            lemma_drop_member(ms, name@);
        }
        match self.find(name) {
            Some(i) => {
                self.member_names.remove(i);
                self.member_senders.remove(i);
                assert(self@.members =~= drop_member(ms, name@));
            },
            None => {},
        }
    }

    fn senders(&self) -> (res: Vec<chan::Sender<String>>)
        requires
            self.wf(),
        ensures
            res@ == member_senders(self@.members),
    {
        let mut vec: Vec<chan::Sender<String>> = Vec::new();
        let mut k: usize = 0;
        while k < self.member_senders.len()
            invariant
                self.wf(),
                k <= self.member_senders@.len(),
                vec@ =~= self.member_senders@.take(k as int),
            decreases self.member_senders@.len() - k,
        {
            vec.push(clone_sender(&self.member_senders[k]));
            assert(self.member_senders@.take(k + 1) =~= self.member_senders@.take(k as int).push(
                self.member_senders@[k as int],
            ));
            k = k + 1;
        }
        assert(vec@ =~= member_senders(self@.members));
        vec
    }
}

/// All rooms, each found by its name.
pub struct Group_chat {
    room_names: Vec<String>,
    rooms: Vec<channels>,
}

impl View for Group_chat {
    type V = Map<Seq<char>, RoomView>;

    closed spec fn view(&self) -> Map<Seq<char>, RoomView> {
        Map::new(
            |k: Seq<char>|
                exists|i: int| 0 <= i < self.room_names@.len() && self.room_names@[i]@ == k,
            |k: Seq<char>|
                self.rooms@[choose|i: int|
                    0 <= i < self.room_names@.len() && self.room_names@[i]@ == k]@,
        )
    }
}

impl Group_chat {
    /// Each room is stored once under its name, and each room's members
    /// are listed once.
    pub closed spec fn wf(&self) -> bool {
        &&& self.room_names@.len() == self.rooms@.len()
        &&& forall|i: int, j: int|
            0 <= i < j < self.room_names@.len() ==> self.room_names@[i]@ != self.room_names@[j]@
        &&& forall|i: int| 0 <= i < self.rooms@.len() ==> (#[trigger] self.rooms@[i]).wf()
    }

    proof fn lemma_entry(&self, i: int)
        requires
            self.wf(),
            0 <= i < self.room_names@.len(),
        ensures
            self@.contains_key(self.room_names@[i]@),
            self@[self.room_names@[i]@] == self.rooms@[i]@,
    {
        let k = self.room_names@[i]@;
        assert(self@.dom().contains(k));
        let j: int = choose|j: int| 0 <= j < self.room_names@.len() && self.room_names@[j]@ == k;
        assert(j == i);
    }

    /// Every room's members are listed once.
    pub proof fn lemma_rooms(&self)
        requires
            self.wf(),
        ensures
            forall|k: Seq<char>|
                #[trigger] self@.contains_key(k) ==> unique_members(self@[k].members),
    {
        assert forall|k: Seq<char>| #[trigger] self@.contains_key(k) implies unique_members(
            self@[k].members,
        ) by {
            let j: int = choose|j: int| 0 <= j < self.room_names@.len() && self.room_names@[j]@ == k;
            self.lemma_entry(j);
            assert(self.rooms@[j].wf());
        }
    }

    fn find(&self, name: &String) -> (res: Option<usize>)
        requires
            self.wf(),
        ensures
            match res {
                Some(i) => i < self.room_names@.len() && self.room_names@[i as int]@ == name@,
                None => !self@.contains_key(name@),
            },
    {
        let mut i: usize = 0;
        while i < self.room_names.len()
            invariant
                i <= self.room_names@.len(),
                forall|j: int| 0 <= j < i ==> self.room_names@[j]@ != name@,
            decreases self.room_names@.len() - i,
        {
            if self.room_names[i] == *name {
                return Some(i);
            }
            i = i + 1;
        }
        None
    }

    /// Replacing the room at position `i`, under the same name, replaces
    /// that room of the map.
    proof fn lemma_replace(old_chat: Group_chat, new_chat: Group_chat, i: int)
        requires
            old_chat.wf(),
            new_chat.wf(),
            0 <= i < old_chat.room_names@.len(),
            new_chat.room_names@ == old_chat.room_names@,
            forall|j: int| 0 <= j < old_chat.rooms@.len() && j != i ==> new_chat.rooms@[j]
                == old_chat.rooms@[j],
        ensures
            new_chat@ == old_chat@.insert(old_chat.room_names@[i]@, new_chat.rooms@[i]@),
    {
        let key = old_chat.room_names@[i]@;
        assert forall|k: Seq<char>| #[trigger] new_chat@.contains_key(k) == old_chat@.insert(
            key,
            new_chat.rooms@[i]@,
        ).contains_key(k) by {
            if k == key {
                assert(new_chat.room_names@[i]@ == k);
            }
        }
        assert forall|k: Seq<char>| #[trigger] new_chat@.contains_key(k) implies new_chat@[k]
            == old_chat@.insert(key, new_chat.rooms@[i]@)[k] by {
            let j: int = choose|j: int|
                0 <= j < new_chat.room_names@.len() && new_chat.room_names@[j]@ == k;
            new_chat.lemma_entry(j);
            if k != key {
                old_chat.lemma_entry(j);
            } else {
                assert(j == i) by {
                    if j != i {
                        if j < i {
                            assert(old_chat.room_names@[j]@ != old_chat.room_names@[i]@);
                        } else {
                            assert(old_chat.room_names@[i]@ != old_chat.room_names@[j]@);
                        }
                    }
                }
            }
        }
        assert(new_chat@ =~= old_chat@.insert(key, new_chat.rooms@[i]@));
    }

    /// No rooms.
    pub fn new() -> (res: Group_chat)
        ensures
            res.wf(),
            res@ == Map::<Seq<char>, RoomView>::empty(),
    {
        let res = Group_chat { room_names: Vec::new(), rooms: Vec::new() };
        assert(res@ =~= Map::<Seq<char>, RoomView>::empty());
        res
    }

    /// Opens room `name` on the channel `sender`/`receiver`, with no
    /// members; an open room of that name is replaced.
    pub fn create_group(
        &mut self,
        name: String,
        sender: chan::Sender<String>,
        receiver: chan::Receiver<String>,
    )
        requires
            old(self).wf(),
        ensures
            final(self).wf(),
            final(self)@ == old(self)@.insert(
                name@,
                RoomView { sender, receiver, members: seq![] },
            ),
    {
        let temp = channels::empty(sender, receiver);
        let ghost rv = temp@;
        let ghost key = name@;
        let ghost old_chat = *self;
        match self.find(&name) {
            Some(i) => {
                self.rooms.set(i, temp);
                proof {
                    Group_chat::lemma_replace(old_chat, *self, i as int);
                }
            },
            None => {
                self.room_names.push(name);
                self.rooms.push(temp);
                let ghost n: int = old_chat.room_names@.len() as int;
                assert forall|k: Seq<char>| #[trigger] self@.contains_key(k) == old_chat@.insert(
                    key,
                    rv,
                ).contains_key(k) by {
                    if k == key {
                        assert(self.room_names@[n]@ == k);
                    } else {
                        if self@.contains_key(k) {
                            let j: int = choose|j: int|
                                0 <= j < self.room_names@.len() && self.room_names@[j]@ == k;
                            assert(old_chat.room_names@[j]@ == k);
                        }
                        if old_chat@.contains_key(k) {
                            let j: int = choose|j: int|
                                0 <= j < old_chat.room_names@.len() && old_chat.room_names@[j]@
                                    == k;
                            assert(self.room_names@[j]@ == k);
                        }
                    }
                }
                assert forall|k: Seq<char>| #[trigger] self@.contains_key(k) implies self@[k]
                    == old_chat@.insert(key, rv)[k] by {
                    let j: int = choose|j: int|
                        0 <= j < self.room_names@.len() && self.room_names@[j]@ == k;
                    self.lemma_entry(j);
                    if k != key {
                        old_chat.lemma_entry(j);
                    }
                }
                assert(self@ =~= old_chat@.insert(key, rv));
            },
        }
    }

    /// The channel into which room `name`'s lines are posted.
    pub fn get_sender(&mut self, name: String) -> (res: chan::Sender<String>)
        requires
            old(self).wf(),
            old(self)@.contains_key(name@),
        ensures
            *final(self) == *old(self),
            res == old(self)@[name@].sender,
    {
        let i: usize = self.find(&name).unwrap();
        proof {
            self.lemma_entry(i as int);
        }
        clone_sender(&self.rooms[i].sender)
    }

    /// The receiving end of room `name`'s channel.
    pub fn get_receiver(&mut self, name: String) -> (res: chan::Receiver<String>)
        requires
            old(self).wf(),
            old(self)@.contains_key(name@),
        ensures
            *final(self) == *old(self),
            res == old(self)@[name@].receiver,
    {
        let i: usize = self.find(&name).unwrap();
        proof {
            self.lemma_entry(i as int);
        }
        clone_receiver(&self.rooms[i].receiver)
    }

    /// Adds `users_name` to room `chat_name`, delivered to through `sender`.
    pub fn add_member(&mut self, chat_name: String, users_name: String, sender: chan::Sender<String>)
        requires
            old(self).wf(),
            old(self)@.contains_key(chat_name@),
        ensures
            final(self).wf(),
            final(self)@ == old(self)@.insert(
                chat_name@,
                with_member(old(self)@[chat_name@], users_name@, sender),
            ),
    {
        let i: usize = self.find(&chat_name).unwrap();
        let ghost old_chat = *self;
        proof {
            self.lemma_entry(i as int);
        }
        let mut room = self.rooms.remove(i);
        assert(room.wf());
        room.add_member(users_name, sender);
        self.rooms.insert(i, room);
        proof {
            Group_chat::lemma_replace(old_chat, *self, i as int);
        }
    }

    /// Removes `name` from the members of room `chat_room`.
    pub fn remove_member(&mut self, chat_room: String, name: String)
        requires
            old(self).wf(),
            old(self)@.contains_key(chat_room@),
        ensures
            final(self).wf(),
            final(self)@ == old(self)@.insert(
                chat_room@,
                without_member(old(self)@[chat_room@], name@),
            ),
    {
        let i: usize = self.find(&chat_room).unwrap();
        let ghost old_chat = *self;
        proof {
            self.lemma_entry(i as int);
        }
        let mut room = self.rooms.remove(i);
        assert(room.wf());
        room.remove_member(&name);
        self.rooms.insert(i, room);
        proof {
            Group_chat::lemma_replace(old_chat, *self, i as int);
        }
    }

    /// The channels of all members of room `name`, in the order they
    /// joined.
    pub fn get_sender_list(&mut self, name: String) -> (res: Vec<chan::Sender<String>>)
        requires
            old(self).wf(),
            old(self)@.contains_key(name@),
        ensures
            *final(self) == *old(self),
            res@ == member_senders(old(self)@[name@].members),
    {
        let i: usize = self.find(&name).unwrap();
        proof {
            self.lemma_entry(i as int);
        }
        assert(self.rooms@[i as int].wf());
        self.rooms[i].senders()
    }

    /// The names of all rooms, each once.
    pub fn get_chatroom_list(&mut self) -> (res: Vec<String>)
        requires
            old(self).wf(),
        ensures
            *final(self) == *old(self),
            views(res@).no_duplicates(),
            forall|k: Seq<char>| old(self)@.contains_key(k) <==> views(res@).contains(k),
    {
        let mut set: Vec<String> = Vec::new();
        let mut i: usize = 0;
        while i < self.room_names.len()
            invariant
                self.wf(),
                i <= self.room_names@.len(),
                views(set@) =~= views(self.room_names@.take(i as int)),
            decreases self.room_names@.len() - i,
        {
            let ghost before = views(set@);
            set.push(self.room_names[i].clone());
            assert(views(set@) =~= before.push(self.room_names@[i as int]@));
            assert(views(self.room_names@.take(i + 1)) =~= views(self.room_names@.take(i as int)).push(
                self.room_names@[i as int]@,
            ));
            i = i + 1;
        }
        assert(self.room_names@.take(i as int) =~= self.room_names@);
        assert forall|a: int, b: int| 0 <= a < views(set@).len() && 0 <= b < views(set@).len() && a
            != b implies views(set@)[a] != views(set@)[b] by {
            if a < b {
                assert(self.room_names@[a]@ != self.room_names@[b]@);
            } else {
                assert(self.room_names@[b]@ != self.room_names@[a]@);
            }
        }
        assert forall|k: Seq<char>| self@.contains_key(k) <==> views(set@).contains(k) by {
            if self@.contains_key(k) {
                let j: int = choose|j: int| 0 <= j < self.room_names@.len() && self.room_names@[j]@ == k;
                assert(views(set@)[j] == k);
            }
            if views(set@).contains(k) {
                let j: int = choose|j: int| 0 <= j < views(set@).len() && views(set@)[j] == k;
                assert(self.room_names@[j]@ == k);
            }
        }
        set
    }
}

/// Opens chat room `name` on a new channel that queues up to 100000
/// lines, with no members (an open room of that name is replaced), and
/// returns the receiving end of the room's channel, from which the room's
/// relay reads.
pub fn create_chatroom(group_chat: &mut Group_chat, name: String) -> (res: chan::Receiver<String>)
    requires
        old(group_chat).wf(),
    ensures
        final(group_chat).wf(),
        final(group_chat)@ == old(group_chat)@.insert(name@, final(group_chat)@[name@]),
        final(group_chat)@[name@].receiver == res,
        final(group_chat)@[name@].members == Members::empty(),
{
    let (sender, receiver) = bounded_channel(100000);
    group_chat.create_group(name, clone_sender(&sender), clone_receiver(&receiver));
    receiver
}

/// Makes `user_name` a member of room `name`: the member gets a new
/// channel that queues up to 100 lines. Returns the channel into which the
/// member posts to the room and the receiving end of the member's new
/// channel.
pub fn join_group_chat(group_chat: &mut Group_chat, name: String, user_name: String) -> (res: (
    chan::Sender<String>,
    chan::Receiver<String>,
))
    requires
        old(group_chat).wf(),
        old(group_chat)@.contains_key(name@),
    ensures
        final(group_chat).wf(),
        res.0 == old(group_chat)@[name@].sender,
        exists|s: chan::Sender<String>|
            final(group_chat)@ == old(group_chat)@.insert(
                name@,
                with_member(old(group_chat)@[name@], user_name@, s),
            ),
{
    let sender = group_chat.get_sender(name.clone());
    let _receiver = group_chat.get_receiver(name.clone());
    let (unique_s, unique_r) = bounded_channel(100);
    let ghost s = unique_s;
    group_chat.add_member(name, user_name, unique_s);
    assert(final(group_chat)@ == old(group_chat)@.insert(
        name@,
        with_member(old(group_chat)@[name@], user_name@, s),
    ));
    (sender, unique_r)
}

/// One turn of a room member's delivery side: once the member's quit flag
/// is raised, `name` leaves room `chat_name` and delivery stops; otherwise
/// nothing changes and delivery goes on. Returns whether to stop.
pub fn leave_room_if_quit(group_chat: &mut Group_chat, chat_name: &String, name: &String, quit: bool) -> (stop: bool)
    requires
        old(group_chat).wf(),
        quit ==> old(group_chat)@.contains_key(chat_name@),
    ensures
        final(group_chat).wf(),
        stop == quit,
        quit ==> final(group_chat)@ == old(group_chat)@.insert(
            chat_name@,
            without_member(old(group_chat)@[chat_name@], name@),
        ),
        !quit ==> *final(group_chat) == *old(group_chat),
{
    if quit {
        group_chat.remove_member(chat_name.clone(), name.clone());
        true
    } else {
        false
    }
}

/// Sends `line` into each of the channels `senders`, in order.
pub fn broadcast(senders: &Vec<chan::Sender<String>>, line: &String) {
    let mut k: usize = 0;
    while k < senders.len()
        invariant
            k <= senders@.len(),
        decreases senders@.len() - k,
    {
        send_line(&senders[k], line.clone());
        k = k + 1;
    }
}

/// The UTF-8 bytes of a text.
pub open spec fn bytes_of(s: Seq<char>) -> Seq<u8> {
    vstd::utf8::encode_utf8(s)
}

/// A room line goes out to the member shown as `own`, unless cutting the
/// line to the byte length of `own` (as `String::truncate` does) leaves
/// exactly `own`.
pub open spec fn relayed(message: Seq<char>, own: Seq<char>) -> bool {
    bytes_of(message).take(
        if bytes_of(message).len() <= bytes_of(own).len() {
            bytes_of(message).len() as int
        } else {
            bytes_of(own).len() as int
        },
    ) != bytes_of(own)
}

proof fn lemma_bytes_append(a: Seq<char>, b: Seq<char>)
    ensures
        bytes_of(a + b) == bytes_of(a) + bytes_of(b),
    decreases a.len(),
{
    if a.len() > 0 {
        assert((a + b).drop_first() =~= a.drop_first() + b);
        assert((a + b)[0] == a[0]);
        lemma_bytes_append(a.drop_first(), b);
        assert(bytes_of(a + b) =~= bytes_of(a) + bytes_of(b));
    } else {
        assert(a + b =~= b);
        assert(bytes_of(a) =~= Seq::<u8>::empty());
        assert(bytes_of(a) + bytes_of(b) =~= bytes_of(b));
    }
}

/// A member never gets its own posts back: a room line that starts with
/// the member's shown name is not relayed to that member.
pub proof fn lemma_own_post_not_relayed(own: Seq<char>, rest: Seq<char>)
    ensures
        !relayed(own + rest, own),
{
    lemma_bytes_append(own, rest);
    assert((bytes_of(own) + bytes_of(rest)).take(bytes_of(own).len() as int) =~= bytes_of(own));
    if bytes_of(own + rest).len() <= bytes_of(own).len() {
        assert(bytes_of(rest).len() == 0);
        assert(bytes_of(own + rest) =~= bytes_of(own));
        assert(bytes_of(own + rest).take(bytes_of(own + rest).len() as int) =~= bytes_of(own));
    }
}

/// `own` begins `message`.
pub open spec fn starts_with_text(message: Seq<char>, own: Seq<char>) -> bool {
    own.len() <= message.len() && message.take(own.len() as int) == own
}

proof fn lemma_ascii_char_eq(c: char, d: char)
    requires
        (c as nat) < 128,
        (d as nat) < 128,
        c as u8 == d as u8,
    ensures
        c == d,
{
    vstd::utf8::char_u32_cast(c, c as u32);
    vstd::utf8::char_u32_cast(d, d as u32);
}

/// For ASCII text, a room line goes out to a member exactly when it does
/// not begin with the member's shown name: own posts are held back, and
/// every other line is relayed.
pub proof fn lemma_relayed_ascii(message: Seq<char>, own: Seq<char>)
    requires
        vstd::utf8::is_ascii_chars(message),
        vstd::utf8::is_ascii_chars(own),
    ensures
        relayed(message, own) == !starts_with_text(message, own),
{
    broadcast use vstd::utf8::is_ascii_chars_encode_utf8, vstd::utf8::is_ascii_chars_nat_bound;

    let mb = bytes_of(message);
    let ob = bytes_of(own);
    assert(mb.len() == message.len());
    assert(ob.len() == own.len());
    if starts_with_text(message, own) {
        assert(mb.take(ob.len() as int) =~= ob) by {
            assert forall|i: int| 0 <= i < ob.len() implies mb.take(ob.len() as int)[i] == ob[i] by {
                assert(message.take(own.len() as int)[i] == own[i]);
                assert(message[i] as u8 == mb[i]);
                assert(own[i] as u8 == ob[i]);
            }
        }
        if mb.len() <= ob.len() {
            assert(mb.take(mb.len() as int) =~= mb.take(ob.len() as int));
        }
    } else {
        if mb.len() < ob.len() {
            assert(mb.take(mb.len() as int).len() != ob.len());
        } else {
            let cut: int = if mb.len() <= ob.len() { mb.len() as int } else { ob.len() as int };
            assert(cut == ob.len());
            if mb.take(cut) == ob {
                assert(message.take(own.len() as int) =~= own) by {
                    assert forall|i: int| 0 <= i < own.len() implies message.take(
                        own.len() as int,
                    )[i] == own[i] by {
                        assert(mb.take(cut)[i] == ob[i]);
                        assert(message[i] as u8 == mb[i]);
                        assert(own[i] as u8 == ob[i]);
                        lemma_ascii_char_eq(message[i], own[i]);
                    }
                }
            }
        }
    }
}

/// Every byte position of ASCII text is a character boundary.
pub proof fn lemma_ascii_boundaries(message: Seq<char>, k: int)
    requires
        vstd::utf8::is_ascii_chars(message),
        0 <= k <= bytes_of(message).len(),
    ensures
        vstd::utf8::is_char_boundary(bytes_of(message), k),
{
    broadcast use vstd::utf8::is_ascii_chars_encode_utf8, vstd::utf8::is_ascii_chars_nat_bound;

    let b = bytes_of(message);
    vstd::utf8::encode_utf8_valid_utf8(message);
    if k == b.len() {
        vstd::utf8::is_char_boundary_start_end_of_seq(b);
    } else {
        assert(message[k] as u8 == b[k]);
        assert((message[k] as nat) < 128);
        vstd::utf8::is_char_boundary_iff_not_is_continuation_byte(b, k);
    }
}

/// For ASCII text, whether a room line reaches a member is always defined
/// (the cut never falls inside a character), and the line reaches the
/// member exactly when it does not start with the member's shown name.
pub proof fn lemma_ascii_relay(message: Seq<char>, own: Seq<char>)
    requires
        vstd::utf8::is_ascii_chars(message),
        vstd::utf8::is_ascii_chars(own),
    ensures
        bytes_of(message).len() <= bytes_of(own).len() || vstd::utf8::is_char_boundary(
            bytes_of(message),
            bytes_of(own).len() as int,
        ),
        relayed(message, own) == !starts_with_text(message, own),
{
    if bytes_of(message).len() > bytes_of(own).len() {
        lemma_ascii_boundaries(message, bytes_of(own).len() as int);
    }
    lemma_relayed_ascii(message, own);
}

/// Whether a room line goes out to the member shown as `own_name` (see
/// `relayed`). Cutting a line inside a character panics in
/// `String::truncate`; such lines are left out.
pub fn relays_to(message: &String, own_name: &String) -> (res: bool)
    requires
        bytes_of(message@).len() <= bytes_of(own_name@).len() || vstd::utf8::is_char_boundary(
            bytes_of(message@),
            bytes_of(own_name@).len() as int,
        ),
    ensures
        res == relayed(message@, own_name@),
{
    let m = message.as_str().as_bytes();
    let n = own_name.as_str().as_bytes();
    let ghost mb = bytes_of(message@);
    let ghost nb = bytes_of(own_name@);
    assert(m@ == mb);
    assert(n@ == nb);
    if m.len() < n.len() {
        assert(mb.take(mb.len() as int).len() != nb.len());
        return true;
    }
    let mut k: usize = 0;
    while k < n.len()
        invariant
            k <= n@.len(),
            n@.len() <= m@.len(),
            m@ == mb,
            n@ == nb,
            mb == bytes_of(message@),
            nb == bytes_of(own_name@),
            forall|j: int| 0 <= j < k ==> m@[j] == n@[j],
        decreases n@.len() - k,
    {
        if m[k] != n[k] {
            let ghost cut: int = if mb.len() <= nb.len() {
                mb.len() as int
            } else {
                nb.len() as int
            };
            assert(cut == nb.len());
            assert(mb.take(cut)[k as int] != nb[k as int]);
            assert(mb.take(cut) != nb);
            return true;
        }
        k = k + 1;
    }
    assert(mb.take(nb.len() as int) =~= nb);
    if m.len() == n.len() {
        assert(mb.take(mb.len() as int) =~= nb);
    }
    false
}

/// What a member's line does in a room: `QUIT` (once its line ending is
/// removed) leaves the room with a farewell, anything else is said to the
/// room under the member's shown name. Returns whether the member leaves,
/// and the text to post.
pub fn group_chat_line(name: &String, line: &String) -> (res: (bool, String))
    ensures
        res.0 == (drop_line_end(line@) == "QUIT"@),
        res.1@ == if res.0 {
            name@ + " has left the group chat.\n"@
        } else {
            name@ + " : "@ + drop_line_end(line@) + "\n"@
        },
{
    let said = strip_line_end(line);
    if said == text("QUIT") {
        let mut msg = name.clone();
        msg.append(" has left the group chat.\n");
        (true, msg)
    } else {
        let mut msg = name.clone();
        msg.append(" : ");
        msg.append(said.as_str());
        msg.append("\n");
        (false, msg)
    }
}

} // verus!
