//! The registry of user accounts: who exists, their passwords and friends,
//! and whether each is busy or has a pending private-chat request.
use vstd::prelude::*;
use vstd::string::*;
use crate::text::{contains_text, join_with, lemma_join_push, text, views};

verus! {

/// What the registry knows of one user.
pub struct UserView {
    pub name: Seq<char>,
    pub password: Seq<char>,
    /// The user's friends, each once, in the order they were added.
    pub friends: Seq<Seq<char>>,
    /// The user is in a dialogue or a chat (another user can then only
    /// leave a message).
    pub busy: bool,
    /// Another user has asked this one for a private chat.
    pub private_chat: bool,
}

/// `s` with `x` added at the end unless it is already there.
pub open spec fn add_unique(s: Seq<Seq<char>>, x: Seq<char>) -> Seq<Seq<char>> {
    if s.contains(x) {
        s
    } else {
        s.push(x)
    }
}

/// A newly created account: no friends, neither busy nor asked to chat.
pub open spec fn fresh_user(name: Seq<char>, password: Seq<char>) -> UserView {
    UserView { name, password, friends: seq![], busy: false, private_chat: false }
}

/// The registry `m` with `name`'s busy flag set to `b`.
pub open spec fn with_busy(m: Map<Seq<char>, UserView>, name: Seq<char>, b: bool) -> Map<
    Seq<char>,
    UserView,
> {
    m.insert(name, UserView { busy: b, ..m[name] })
}

/// The registry `m` with `name`'s private-chat flag set to `b`.
pub open spec fn with_private_chat(m: Map<Seq<char>, UserView>, name: Seq<char>, b: bool) -> Map<
    Seq<char>,
    UserView,
> {
    m.insert(name, UserView { private_chat: b, ..m[name] })
}

/// The registry `m` with `friend` among `name`'s friends.
pub open spec fn with_friend(m: Map<Seq<char>, UserView>, name: Seq<char>, friend: Seq<char>) -> Map<
    Seq<char>,
    UserView,
> {
    m.insert(name, UserView { friends: add_unique(m[name].friends, friend), ..m[name] })
}

/// The separator that starts every record of the user store.
pub open spec fn record_separator() -> Seq<char> {
    seq!['/', '/', '/', '/', '/', '/', '/', '/']
}

/// The fields of a user's record: name, password, then the friends.
pub open spec fn user_fields(u: UserView) -> Seq<Seq<char>> {
    seq![u.name, u.password] + u.friends
}

/// A record of the user store: the separator, then the fields separated by
/// single spaces.
pub open spec fn record_of(fields: Seq<Seq<char>>) -> Seq<char> {
    record_separator() + join_with(fields, seq![' '])
}

/// Setting a user's busy flag: reading it back gives the value set, and
/// nothing else of the registry changes.
pub proof fn lemma_busy_flag(m: Map<Seq<char>, UserView>, name: Seq<char>, b: bool)
    requires
        m.contains_key(name),
    ensures
        with_busy(m, name, b).dom() == m.dom(),
        with_busy(m, name, b)[name].busy == b,
        with_busy(m, name, b)[name] == (UserView { busy: b, ..m[name] }),
        forall|k: Seq<char>| k != name ==> with_busy(m, name, b)[k] == m[k],
{
    assert(with_busy(m, name, b).dom() =~= m.dom());
}

/// Setting a user's private-chat flag: reading it back gives the value
/// set, and nothing else of the registry changes.
pub proof fn lemma_private_chat_flag(m: Map<Seq<char>, UserView>, name: Seq<char>, b: bool)
    requires
        m.contains_key(name),
    ensures
        with_private_chat(m, name, b).dom() == m.dom(),
        with_private_chat(m, name, b)[name].private_chat == b,
        with_private_chat(m, name, b)[name] == (UserView { private_chat: b, ..m[name] }),
        forall|k: Seq<char>| k != name ==> with_private_chat(m, name, b)[k] == m[k],
{
    assert(with_private_chat(m, name, b).dom() =~= m.dom());
}

/// Befriending: the friend is then listed, each friend stays listed once,
/// the user's other fields and the other users do not change, and adding
/// the same friend again changes nothing.
pub proof fn lemma_friend_added(m: Map<Seq<char>, UserView>, name: Seq<char>, friend: Seq<char>)
    requires
        m.contains_key(name),
        m[name].friends.no_duplicates(),
    ensures
        with_friend(m, name, friend).dom() == m.dom(),
        with_friend(m, name, friend)[name].friends.contains(friend),
        with_friend(m, name, friend)[name].friends.no_duplicates(),
        forall|x: Seq<char>|
            m[name].friends.contains(x) ==> with_friend(m, name, friend)[name].friends.contains(x),
        with_friend(m, name, friend)[name].password == m[name].password,
        forall|k: Seq<char>| k != name ==> with_friend(m, name, friend)[k] == m[k],
        with_friend(with_friend(m, name, friend), name, friend) == with_friend(m, name, friend),
{
    let fs = m[name].friends;
    let nf = add_unique(fs, friend);
    assert(with_friend(m, name, friend).dom() =~= m.dom());
    if !fs.contains(friend) {
        assert(nf[fs.len() as int] == friend);
        assert forall|a: int, b: int| 0 <= a < b < nf.len() implies nf[a] != nf[b] by {
            if b == fs.len() {
                assert(fs.contains(fs[a]));
            }
        }
        assert forall|x: Seq<char>| fs.contains(x) implies nf.contains(x) by {
            let j: int = choose|j: int| 0 <= j < fs.len() && fs[j] == x;
            assert(nf[j] == x);
        }
    }
    assert(nf.contains(friend));
    assert(with_friend(with_friend(m, name, friend), name, friend) =~= with_friend(
        m,
        name,
        friend,
    ));
}

/// A call that changes the registry, as its contract states the change:
/// `Create_user`, `add_friend`, a busy-flag setter or a private-chat-flag
/// setter.
pub enum RegistryOp {
    Create(Seq<char>, Seq<char>),
    Befriend(Seq<char>, Seq<char>),
    Busy(Seq<char>, bool),
    Private(Seq<char>, bool),
}

/// The registry after one call.
pub open spec fn apply_op(m: Map<Seq<char>, UserView>, op: RegistryOp) -> Map<Seq<char>, UserView> {
    match op {
        RegistryOp::Create(n, p) => m.insert(n, fresh_user(n, p)),
        RegistryOp::Befriend(n, f) => with_friend(m, n, f),
        RegistryOp::Busy(n, b) => with_busy(m, n, b),
        RegistryOp::Private(n, b) => with_private_chat(m, n, b),
    }
}

/// The call may be made: every call but `Create_user` needs its user.
pub open spec fn op_allowed(m: Map<Seq<char>, UserView>, op: RegistryOp) -> bool {
    match op {
        RegistryOp::Create(_, _) => true,
        RegistryOp::Befriend(n, _) => m.contains_key(n),
        RegistryOp::Busy(n, _) => m.contains_key(n),
        RegistryOp::Private(n, _) => m.contains_key(n),
    }
}

/// The registry after the calls `ops`, in order.
pub open spec fn apply_ops(m: Map<Seq<char>, UserView>, ops: Seq<RegistryOp>) -> Map<
    Seq<char>,
    UserView,
>
    decreases ops.len(),
{
    if ops.len() == 0 {
        m
    } else {
        apply_ops(apply_op(m, ops[0]), ops.drop_first())
    }
}

/// Each of the calls `ops` may be made when its turn comes.
pub open spec fn ops_allowed(m: Map<Seq<char>, UserView>, ops: Seq<RegistryOp>) -> bool
    decreases ops.len(),
{
    ops.len() == 0 || (op_allowed(m, ops[0]) && ops_allowed(apply_op(m, ops[0]), ops.drop_first()))
}

/// `n`'s busy flag after the calls `ops`, from `b`: the value of the last
/// busy setter of `n`, or not busy after a `Create_user` of `n`, whichever
/// came last; `b` if neither came.
pub open spec fn busy_after(ops: Seq<RegistryOp>, n: Seq<char>, b: bool) -> bool
    decreases ops.len(),
{
    if ops.len() == 0 {
        b
    } else {
        let next = match ops[0] {
            RegistryOp::Busy(k, x) => if k == n {
                x
            } else {
                b
            },
            RegistryOp::Create(k, _) => if k == n {
                false
            } else {
                b
            },
            _ => b,
        };
        busy_after(ops.drop_first(), n, next)
    }
}

/// `n`'s private-chat flag after the calls `ops`, from `b`, as
/// `busy_after` for the private-chat setters.
pub open spec fn private_after(ops: Seq<RegistryOp>, n: Seq<char>, b: bool) -> bool
    decreases ops.len(),
{
    if ops.len() == 0 {
        b
    } else {
        let next = match ops[0] {
            RegistryOp::Private(k, x) => if k == n {
                x
            } else {
                b
            },
            RegistryOp::Create(k, _) => if k == n {
                false
            } else {
                b
            },
            _ => b,
        };
        private_after(ops.drop_first(), n, next)
    }
}

/// Over any sequence of calls, a registered user stays registered, and its
/// busy and private-chat flags read back as the last value set for it (a
/// `Create_user` of the name counts as setting both to false); calls on
/// other users, the other flag's setters and `add_friend` leave them be.
pub proof fn lemma_flags_over_calls(m: Map<Seq<char>, UserView>, ops: Seq<RegistryOp>, n: Seq<char>)
    requires
        ops_allowed(m, ops),
        m.contains_key(n),
    ensures
        apply_ops(m, ops).contains_key(n),
        apply_ops(m, ops)[n].busy == busy_after(ops, n, m[n].busy),
        apply_ops(m, ops)[n].private_chat == private_after(ops, n, m[n].private_chat),
    decreases ops.len(),
{
    if ops.len() > 0 {
        let m1 = apply_op(m, ops[0]);
        assert(m1.contains_key(n));
        match ops[0] {
            RegistryOp::Befriend(k, f) => {
                assert(m1[n].busy == m[n].busy);
                assert(m1[n].private_chat == m[n].private_chat);
            },
            _ => {},
        }
        lemma_flags_over_calls(m1, ops.drop_first(), n);
    }
}

proof fn lemma_insert_after_remove(m: Map<Seq<char>, UserView>, k: Seq<char>, v: UserView)
    requires
        m.contains_key(k),
    ensures
        m.remove(k).insert(k, v) == m.insert(k, v),
{
    assert(m.remove(k).insert(k, v) =~= m.insert(k, v));
}

spec fn names_of(users: Seq<User_info>) -> Seq<Seq<char>> {
    users.map_values(|u: User_info| u.name@)
}

/// Adds `x` to `v` unless it is there.
pub(crate) fn push_unique(v: &mut Vec<String>, x: String)
    requires
        views(old(v)@).no_duplicates(),
    ensures
        views(final(v)@) == add_unique(views(old(v)@), x@),
        views(final(v)@).no_duplicates(),
{
    if !contains_text(v, &x) {
        let ghost before = views(v@);
        let ghost xv = x@;
        v.push(x);
        assert(views(v@) =~= before.push(xv));
        assert forall|a: int, b: int| 0 <= a < b < views(v@).len() implies views(v@)[a]
            != views(v@)[b] by {
            if b == before.len() {
                assert(before.contains(before[a]));
            } else {
                assert(before[a] != before[b]);
            }
        }
    }
}

/// One account.
pub struct User_info {
    name: String,
    password: String,
    friend_list: Vec<String>,
    busy: bool,
    private_chat: bool,
}

impl View for User_info {
    type V = UserView;

    closed spec fn view(&self) -> UserView {
        UserView {
            name: self.name@,
            password: self.password@,
            friends: views(self.friend_list@),
            busy: self.busy,
            private_chat: self.private_chat,
        }
    }
}

impl User_info {
    /// A user with the given fields, neither busy nor asked to chat.
    pub(crate) fn from_fields(name: String, password: String, friend_list: Vec<String>) -> (res:
        User_info)
        requires
            views(friend_list@).no_duplicates(),
        ensures
            res@ == (UserView {
                name: name@,
                password: password@,
                friends: views(friend_list@),
                busy: false,
                private_chat: false,
            }),
    {
        User_info { name, password, friend_list, busy: false, private_chat: false }
    }
}

/// The registry of accounts, each found by its name.
pub struct User_info_map {
    users: Vec<User_info>,
}

impl View for User_info_map {
    type V = Map<Seq<char>, UserView>;

    closed spec fn view(&self) -> Map<Seq<char>, UserView> {
        Map::new(
            |k: Seq<char>| exists|i: int| 0 <= i < self.users@.len() && self.users@[i].name@ == k,
            |k: Seq<char>|
                self.users@[choose|i: int|
                    0 <= i < self.users@.len() && self.users@[i].name@ == k]@,
        )
    }
}

impl User_info_map {
    /// Each account is stored once, under its own name, and lists each
    /// friend once.
    pub closed spec fn wf(&self) -> bool {
        &&& forall|i: int, j: int|
            0 <= i < j < self.users@.len() ==> self.users@[i].name@ != self.users@[j].name@
        &&& forall|i: int|
            0 <= i < self.users@.len() ==> views((#[trigger] self.users@[i]).friend_list@).no_duplicates()
    }

    proof fn lemma_entry(&self, i: int)
        requires
            self.wf(),
            0 <= i < self.users@.len(),
        ensures
            self@.contains_key(self.users@[i].name@),
            self@[self.users@[i].name@] == self.users@[i]@,
    {
        let k = self.users@[i].name@;
        assert(self@.dom().contains(k));
        let j: int = choose|j: int| 0 <= j < self.users@.len() && self.users@[j].name@ == k;
        assert(j == i);
    }

    /// Every stored user is stored under its own name and lists each friend
    /// once.
    pub proof fn lemma_entries(&self)
        requires
            self.wf(),
        ensures
            forall|k: Seq<char>| #[trigger] self@.contains_key(k) ==> self@[k].name == k,
            forall|k: Seq<char>|
                #[trigger] self@.contains_key(k) ==> self@[k].friends.no_duplicates(),
    {
        assert forall|k: Seq<char>| #[trigger] self@.contains_key(k) implies self@[k].name == k
            && self@[k].friends.no_duplicates() by {
            let j: int = choose|j: int| 0 <= j < self.users@.len() && self.users@[j].name@ == k;
            self.lemma_entry(j);
        }
    }

    fn find(&self, name: &String) -> (res: Option<usize>)
        requires
            self.wf(),
        ensures
            match res {
                Some(i) => i < self.users@.len() && self.users@[i as int].name@ == name@,
                None => !self@.contains_key(name@),
            },
    {
        let mut i: usize = 0;
        while i < self.users.len()
            invariant
                i <= self.users@.len(),
                forall|j: int| 0 <= j < i ==> self.users@[j].name@ != name@,
            decreases self.users@.len() - i,
        {
            if self.users[i].name == *name {
                return Some(i);
            }
            i = i + 1;
        }
        None
    }

    /// A registry with no accounts.
    pub(crate) fn empty() -> (res: User_info_map)
        ensures
            res.wf(),
            res@ == Map::<Seq<char>, UserView>::empty(),
    {
        let res = User_info_map { users: Vec::new() };
        assert(res@ =~= Map::<Seq<char>, UserView>::empty());
        res
    }

    /// Stores `u` under its name, replacing an account of that name.
    pub(crate) fn put(&mut self, u: User_info)
        requires
            old(self).wf(),
            u@.friends.no_duplicates(),
        ensures
            final(self).wf(),
            final(self)@ == old(self)@.insert(u@.name, u@),
    {
        let ghost key = u@.name;
        let ghost val = u@;
        let ghost old_users = self.users@;
        let ghost old_view = self@;
        let ghost old_map = *self;
        match self.find(&u.name) {
            Some(i) => {
                self.users.set(i, u);
                assert forall|k: Seq<char>| #[trigger] self@.contains_key(k) == old_view.insert(
                    key,
                    val,
                ).contains_key(k) by {
                    if k != key {
                        if self@.contains_key(k) {
                            let j: int = choose|j: int|
                                0 <= j < self.users@.len() && self.users@[j].name@ == k;
                            assert(old_users[j].name@ == k);
                        }
                        if old_view.contains_key(k) {
                            let j: int = choose|j: int|
                                0 <= j < old_users.len() && old_users[j].name@ == k;
                            assert(self.users@[j].name@ == k);
                        }
                    } else {
                        assert(self.users@[i as int].name@ == k);
                    }
                }
                assert forall|k: Seq<char>| #[trigger] self@.contains_key(k) implies self@[k]
                    == old_view.insert(key, val)[k] by {
                    let j: int = choose|j: int| 0 <= j < self.users@.len() && self.users@[j].name@ == k;
                    self.lemma_entry(j);
                    if k != key {
                        assert(j != i);
                        old_map.lemma_entry(j);
                    }
                }
                assert(self@ =~= old_view.insert(key, val));
            },
            None => {
                self.users.push(u);
                let ghost n: int = old_users.len() as int;
                assert forall|k: Seq<char>| #[trigger] self@.contains_key(k) == old_view.insert(
                    key,
                    val,
                ).contains_key(k) by {
                    if k != key {
                        if self@.contains_key(k) {
                            let j: int = choose|j: int|
                                0 <= j < self.users@.len() && self.users@[j].name@ == k;
                            assert(j != n);
                            assert(old_users[j].name@ == k);
                        }
                        if old_view.contains_key(k) {
                            let j: int = choose|j: int|
                                0 <= j < old_users.len() && old_users[j].name@ == k;
                            assert(self.users@[j].name@ == k);
                        }
                    } else {
                        assert(self.users@[n].name@ == k);
                    }
                }
                assert forall|k: Seq<char>| #[trigger] self@.contains_key(k) implies self@[k]
                    == old_view.insert(key, val)[k] by {
                    let j: int = choose|j: int| 0 <= j < self.users@.len() && self.users@[j].name@ == k;
                    self.lemma_entry(j);
                    if k != key {
                        assert(j != n);
                        old_map.lemma_entry(j);
                    }
                }
                assert(self@ =~= old_view.insert(key, val));
            },
        }
    }

    fn take_user(&mut self, name: &String) -> (res: User_info)
        requires
            old(self).wf(),
            old(self)@.contains_key(name@),
        ensures
            res@ == old(self)@[name@],
            res@.friends.no_duplicates(),
            final(self).wf(),
            final(self)@ == old(self)@.remove(name@),
    {
        let i: usize = match self.find(name) {
            Some(i) => i,
            None => {
                assert(false);
                0
            },
        };
        proof {
            self.lemma_entry(i as int);
        }
        let ghost old_map = *self;
        let u = self.users.remove(i);
        assert forall|k: Seq<char>| #[trigger] self@.contains_key(k) == old_map@.remove(
            name@,
        ).contains_key(k) by {
            if self@.contains_key(k) {
                let j: int = choose|j: int| 0 <= j < self.users@.len() && self.users@[j].name@ == k;
                if j < i {
                    assert(old_map.users@[j].name@ == k);
                } else {
                    assert(old_map.users@[j + 1].name@ == k);
                }
            }
            if old_map@.contains_key(k) && k != name@ {
                let j: int = choose|j: int|
                    0 <= j < old_map.users@.len() && old_map.users@[j].name@ == k;
                if j < i {
                    assert(self.users@[j].name@ == k);
                } else {
                    assert(j != i);
                    assert(self.users@[j - 1].name@ == k);
                }
            }
        }
        assert forall|k: Seq<char>| #[trigger] self@.contains_key(k) implies self@[k]
            == old_map@.remove(name@)[k] by {
            let j: int = choose|j: int| 0 <= j < self.users@.len() && self.users@[j].name@ == k;
            self.lemma_entry(j);
            if j < i {
                old_map.lemma_entry(j);
            } else {
                old_map.lemma_entry(j + 1);
            }
        }
        assert(self@ =~= old_map@.remove(name@));
        u
    }

    /// The names of all accounts, each once.
    pub fn get_users(&mut self) -> (res: Vec<String>)
        requires
            old(self).wf(),
        ensures
            *final(self) == *old(self),
            views(res@).no_duplicates(),
            forall|k: Seq<char>| old(self)@.contains_key(k) <==> views(res@).contains(k),
    {
        let mut vec: Vec<String> = Vec::new();
        let mut i: usize = 0;
        while i < self.users.len()
            invariant
                self.wf(),
                i <= self.users@.len(),
                views(vec@) =~= names_of(self.users@.take(i as int)),
            decreases self.users@.len() - i,
        {
            let ghost before = views(vec@);
            vec.push(self.users[i].name.clone());
            assert(views(vec@) =~= before.push(self.users@[i as int].name@));
            assert(names_of(self.users@.take(i + 1)) =~= names_of(self.users@.take(i as int)).push(
                self.users@[i as int].name@,
            ));
            i = i + 1;
        }
        assert(self.users@.take(i as int) =~= self.users@);
        assert forall|a: int, b: int| 0 <= a < views(vec@).len() && 0 <= b < views(vec@).len() && a
            != b implies views(vec@)[a] != views(vec@)[b] by {
            if a < b {
                assert(self.users@[a].name@ != self.users@[b].name@);
            } else {
                assert(self.users@[b].name@ != self.users@[a].name@);
            }
        }
        assert forall|k: Seq<char>| self@.contains_key(k) <==> views(vec@).contains(k) by {
            if self@.contains_key(k) {
                let j: int = choose|j: int| 0 <= j < self.users@.len() && self.users@[j].name@ == k;
                assert(views(vec@)[j] == k);
            }
            if views(vec@).contains(k) {
                let j: int = choose|j: int| 0 <= j < views(vec@).len() && views(vec@)[j] == k;
                assert(self.users@[j].name@ == k);
            }
        }
        vec
    }

    /// Whether an account of this name exists.
    pub fn contains_user(&mut self, name: String) -> (res: bool)
        requires
            old(self).wf(),
        ensures
            *final(self) == *old(self),
            res == old(self)@.contains_key(name@),
    {
        match self.find(&name) {
            Some(i) => {
                proof {
                    self.lemma_entry(i as int);
                }
                true
            },
            None => false,
        }
    }

    /// The password of the account `name`.
    pub fn get_password(&mut self, name: String) -> (res: String)
        requires
            old(self).wf(),
            old(self)@.contains_key(name@),
        ensures
            *final(self) == *old(self),
            res@ == old(self)@[name@].password,
    {
        let i: usize = self.find(&name).unwrap();
        proof {
            self.lemma_entry(i as int);
        }
        self.users[i].password.clone()
    }

    /// The friends of `name`, each once, in the order they were added.
    pub fn get_friend_list(&mut self, name: String) -> (res: Vec<String>)
        requires
            old(self).wf(),
            old(self)@.contains_key(name@),
        ensures
            *final(self) == *old(self),
            views(res@) == old(self)@[name@].friends,
    {
        let i: usize = self.find(&name).unwrap();
        proof {
            self.lemma_entry(i as int);
        }
        let friends = &self.users[i].friend_list;
        let mut vec: Vec<String> = Vec::new();
        let mut k: usize = 0;
        while k < friends.len()
            invariant
                k <= friends@.len(),
                views(vec@) =~= views(friends@).take(k as int),
            decreases friends@.len() - k,
        {
            vec.push(friends[k].clone());
            assert(views(friends@).take(k + 1) =~= views(friends@).take(k as int).push(
                friends@[k as int]@,
            ));
            k = k + 1;
        }
        assert(views(friends@).take(k as int) =~= views(friends@));
        vec
    }

    /// Whether `user_name` is busy.
    pub fn get_busy(&mut self, user_name: String) -> (res: bool)
        requires
            old(self).wf(),
            old(self)@.contains_key(user_name@),
        ensures
            *final(self) == *old(self),
            res == old(self)@[user_name@].busy,
    {
        let i: usize = self.find(&user_name).unwrap();
        proof {
            self.lemma_entry(i as int);
        }
        if self.users[i].busy {
            return true;
        } else {
            return false;
        }
    }

    /// Whether another user has asked `user_name` for a private chat.
    pub fn get_priavte_chat(&mut self, user_name: String) -> (res: bool)
        requires
            old(self).wf(),
            old(self)@.contains_key(user_name@),
        ensures
            *final(self) == *old(self),
            res == old(self)@[user_name@].private_chat,
    {
        let i: usize = self.find(&user_name).unwrap();
        proof {
            self.lemma_entry(i as int);
        }
        if self.users[i].private_chat {
            return true;
        } else {
            return false;
        }
    }

    fn set_busy(&mut self, user_name: &String, b: bool)
        requires
            old(self).wf(),
            old(self)@.contains_key(user_name@),
        ensures
            final(self).wf(),
            final(self)@ == with_busy(old(self)@, user_name@, b),
    {
        let mut u = self.take_user(user_name);
        u.busy = b;
        proof {
            lemma_insert_after_remove(old(self)@, user_name@, u@);
        }
        self.put(u);
    }

    fn set_private_chat(&mut self, user_name: &String, b: bool)
        requires
            old(self).wf(),
            old(self)@.contains_key(user_name@),
        ensures
            final(self).wf(),
            final(self)@ == with_private_chat(old(self)@, user_name@, b),
    {
        let mut u = self.take_user(user_name);
        u.private_chat = b;
        proof {
            lemma_insert_after_remove(old(self)@, user_name@, u@);
        }
        self.put(u);
    }

    /// Marks `user_name` busy.
    pub fn set_busy_true(&mut self, user_name: String)
        requires
            old(self).wf(),
            old(self)@.contains_key(user_name@),
        ensures
            final(self).wf(),
            final(self)@ == with_busy(old(self)@, user_name@, true),
    {
        self.set_busy(&user_name, true);
    }

    /// Marks `user_name` free.
    pub fn set_busy_false(&mut self, user_name: String)
        requires
            old(self).wf(),
            old(self)@.contains_key(user_name@),
        ensures
            final(self).wf(),
            final(self)@ == with_busy(old(self)@, user_name@, false),
    {
        self.set_busy(&user_name, false);
    }

    /// Records that another user has asked `user_name` for a private chat.
    pub fn set_private_chat_true(&mut self, user_name: String)
        requires
            old(self).wf(),
            old(self)@.contains_key(user_name@),
        ensures
            final(self).wf(),
            final(self)@ == with_private_chat(old(self)@, user_name@, true),
    {
        self.set_private_chat(&user_name, true);
    }

    /// Clears `user_name`'s pending private-chat request.
    pub fn set_private_chat_false(&mut self, user_name: String)
        requires
            old(self).wf(),
            old(self)@.contains_key(user_name@),
        ensures
            final(self).wf(),
            final(self)@ == with_private_chat(old(self)@, user_name@, false),
    {
        self.set_private_chat(&user_name, false);
    }

    /// Creates the account `name` with `password`, no friends and no flags
    /// raised, replacing an account of that name. Returns the record to
    /// append to the user store.
    pub fn Create_user(&mut self, name: String, password: String) -> (record: String)
        requires
            old(self).wf(),
        ensures
            final(self).wf(),
            final(self)@ == old(self)@.insert(name@, fresh_user(name@, password@)),
            record@ == record_of(user_fields(fresh_user(name@, password@))),
    {
        let mut record = text("////////");
        record.append(name.as_str());
        record.append(" ");
        record.append(password.as_str());
        proof {
            reveal_strlit("////////");
            reveal_strlit(" ");
            let fields = user_fields(fresh_user(name@, password@));
            assert(fields =~= seq![name@, password@]);
            assert(fields.drop_first() =~= seq![password@]);
            assert(join_with(fields.drop_first(), seq![' ']) == password@);
            assert(join_with(fields, seq![' ']) == name@ + seq![' '] + password@);
            assert(record@ =~= record_of(fields));
        }
        let u = User_info::from_fields(name, password, Vec::new());
        proof {
            assert(views(Seq::<String>::empty()) =~= Seq::<Seq<char>>::empty());
        }
        self.put(u);
        record
    }

    /// Adds `friend` to `name`'s friends (a friend already there stays
    /// once). Returns the record to append to the user store: `name`'s
    /// fields as they were, followed by `friend`.
    pub fn add_friend(&mut self, name: String, friend: String) -> (record: String)
        requires
            old(self).wf(),
            old(self)@.contains_key(name@),
        ensures
            final(self).wf(),
            final(self)@ == with_friend(old(self)@, name@, friend@),
            record@ == record_of(user_fields(old(self)@[name@]).push(friend@)),
    {
        proof {
            self.lemma_entries();
        }
        let mut u = self.take_user(&name);
        let ghost fields = user_fields(u@);
        let mut record = text("////////");
        record.append(u.name.as_str());
        record.append(" ");
        record.append(u.password.as_str());
        proof {
            reveal_strlit("////////");
            reveal_strlit(" ");
            assert(fields.take(2).drop_first() =~= seq![u@.password]);
            assert(join_with(fields.take(2).drop_first(), seq![' ']) == u@.password);
            assert(fields.take(2)[0] == u@.name);
            assert(record@ =~= record_separator() + join_with(fields.take(2), seq![' ']));
        }
        let mut k: usize = 0;
        while k < u.friend_list.len()
            invariant
                k <= u.friend_list@.len(),
                fields == user_fields(u@),
                record@ == record_separator() + join_with(fields.take(2 + k), seq![' ']),
            decreases u.friend_list@.len() - k,
        {
            record.append(" ");
            record.append(u.friend_list[k].as_str());
            proof {
                reveal_strlit(" ");
                assert(fields.take(2 + k + 1) =~= fields.take(2 + k).push(fields[2 + k]));
                lemma_join_push(fields.take(2 + k), seq![' '], fields[2 + k]);
            }
            k = k + 1;
        }
        record.append(" ");
        record.append(friend.as_str());
        proof {
            reveal_strlit(" ");
            assert(fields.take(2 + k) =~= fields);
            lemma_join_push(fields, seq![' '], friend@);
            assert(record@ =~= record_of(fields.push(friend@)));
        }
        push_unique(&mut u.friend_list, friend);
        proof {
            lemma_insert_after_remove(old(self)@, name@, u@);
        }
        self.put(u);
        record
    }
}

} // verus!
