//! The login dialogue: choose between an existing account and a new one,
//! give a name and a password, and either enter the lobby or start over.
use vstd::prelude::*;
use vstd::string::*;
use crate::text::text;
use crate::text::join_with;
use crate::users::{fresh_user, record_of, record_separator, user_fields, UserView, User_info_map};

verus! {

/// Where the login dialogue stands.
pub enum LoginStage {
    /// The choice prompt has been shown.
    Choice,
    /// A name is asked for, for an existing account or a new one.
    Name { existing: bool },
    /// A password is asked for.
    Password { existing: bool, name: String },
    /// The user is logged in as `name`.
    LoggedIn { name: String },
}

/// What the login dialogue asks of the connection and the store.
pub enum LoginAction {
    /// Write this text to the connection.
    Say(String),
    /// Append this record to the user store.
    Save(String),
}

/// The model of a login stage.
pub enum LoginStageView {
    Choice,
    Name(bool),
    Password(bool, Seq<char>),
    LoggedIn(Seq<char>),
}

/// The model of a login action.
pub enum LoginActionView {
    Say(Seq<char>),
    Save(Seq<char>),
}

impl View for LoginStage {
    type V = LoginStageView;

    open spec fn view(&self) -> LoginStageView {
        match self {
            LoginStage::Choice => LoginStageView::Choice,
            LoginStage::Name { existing } => LoginStageView::Name(*existing),
            LoginStage::Password { existing, name } => LoginStageView::Password(*existing, name@),
            LoginStage::LoggedIn { name } => LoginStageView::LoggedIn(name@),
        }
    }
}

impl View for LoginAction {
    type V = LoginActionView;

    open spec fn view(&self) -> LoginActionView {
        match self {
            LoginAction::Say(t) => LoginActionView::Say(t@),
            LoginAction::Save(t) => LoginActionView::Save(t@),
        }
    }
}

/// The models of a list of login actions.
pub open spec fn login_actions(v: Seq<LoginAction>) -> Seq<LoginActionView> {
    v.map_values(|a: LoginAction| a@)
}

pub open spec fn choice_prompt() -> Seq<char> {
    "If existing user please enter Y or to create an account enter N "@
}

pub open spec fn name_prompt() -> Seq<char> {
    "Please enter your user name : "@
}

pub open spec fn password_prompt() -> Seq<char> {
    "Please enter your password : "@
}

pub open spec fn wrong_password() -> Seq<char> {
    "incorrect password \n"@
}

pub open spec fn unknown_user() -> Seq<char> {
    "no such user exists ! \n"@
}

pub open spec fn invalid_choice() -> Seq<char> {
    "Please give valid response \n"@
}

/// One step of the login dialogue: from the registry `u`, the stage and
/// the line the user sent (with its line ending), the registry, stage and
/// actions that follow.
///
/// At the choice, a line of three characters (a letter and the line
/// ending) starting with `Y` asks for an existing account, one starting
/// with `N` for a new one; another line of three characters is refused
/// and any other line just shows the choice again. A name and a password
/// are then read whole. An existing account is entered when the password
/// matches; a new account is created (replacing one of that name) and
/// saved, and the dialogue starts over.
pub open spec fn login_next(u: Map<Seq<char>, UserView>, stage: LoginStageView, line: Seq<char>) -> (
    Map<Seq<char>, UserView>,
    LoginStageView,
    Seq<LoginActionView>,
) {
    match stage {
        LoginStageView::Choice => {
            if line.len() != 3 {
                (u, LoginStageView::Choice, seq![LoginActionView::Say(choice_prompt())])
            } else if line[0] == 'Y' {
                (u, LoginStageView::Name(true), seq![LoginActionView::Say(name_prompt())])
            } else if line[0] == 'N' {
                (u, LoginStageView::Name(false), seq![LoginActionView::Say(name_prompt())])
            } else {
                (
                    u,
                    LoginStageView::Choice,
                    seq![
                        LoginActionView::Say(invalid_choice()),
                        LoginActionView::Say(choice_prompt()),
                    ],
                )
            }
        },
        LoginStageView::Name(existing) => (
            u,
            LoginStageView::Password(existing, line),
            seq![LoginActionView::Say(password_prompt())],
        ),
        LoginStageView::Password(existing, name) => {
            if existing {
                if u.contains_key(name) {
                    if u[name].password == line {
                        (u, LoginStageView::LoggedIn(name), seq![])
                    } else {
                        (
                            u,
                            LoginStageView::Choice,
                            seq![
                                LoginActionView::Say(wrong_password()),
                                LoginActionView::Say(choice_prompt()),
                            ],
                        )
                    }
                } else {
                    (
                        u,
                        LoginStageView::Choice,
                        seq![
                            LoginActionView::Say(unknown_user()),
                            LoginActionView::Say(choice_prompt()),
                        ],
                    )
                }
            } else {
                (
                    u.insert(name, fresh_user(name, line)),
                    LoginStageView::Choice,
                    seq![
                        LoginActionView::Save(record_of(user_fields(fresh_user(name, line)))),
                        LoginActionView::Say(choice_prompt()),
                    ],
                )
            }
        },
        LoginStageView::LoggedIn(name) => (u, stage, seq![]),
    }
}

/// Only the right password enters: giving a password for an existing
/// account logs in exactly when the account exists and the password is
/// its own, and changes no account.
pub proof fn lemma_login_needs_password(u: Map<Seq<char>, UserView>, name: Seq<char>, line: Seq<char>)
    ensures
        (login_next(u, LoginStageView::Password(true, name), line).1 is LoggedIn) <==> (
        u.contains_key(name) && u[name].password == line),
        login_next(u, LoginStageView::Password(true, name), line).0 == u,
{
}

/// A new account can be logged into: after an account is created with a
/// password, giving that name and password for an existing account logs
/// in.
pub proof fn lemma_register_then_login(u: Map<Seq<char>, UserView>, name: Seq<char>, password: Seq<char>)
    ensures
        ({
            let after = login_next(u, LoginStageView::Password(false, name), password);
            login_next(after.0, LoginStageView::Password(true, name), password).1
                == LoginStageView::LoggedIn(name)
        }),
{
}

/// The login dialogue never removes an account; it changes the registry
/// only when an account is created.
pub proof fn lemma_login_keeps_accounts(
    u: Map<Seq<char>, UserView>,
    stage: LoginStageView,
    line: Seq<char>,
)
    ensures
        u.dom().subset_of(login_next(u, stage, line).0.dom()),
        !(stage matches LoginStageView::Password(false, _)) ==> login_next(u, stage, line).0 == u,
{
}

/// Registering works: from the choice, a new-account choice (a letter `N`
/// and the line ending), a name line and a password line create the
/// account under that name with that password and no friends, leave every
/// other account as it was, save the record "separator, name, space,
/// password", and return to the choice.
pub proof fn lemma_register(
    u: Map<Seq<char>, UserView>,
    choice: Seq<char>,
    name: Seq<char>,
    password: Seq<char>,
)
    requires
        choice.len() == 3,
        choice[0] == 'N',
    ensures
        ({
            let s1 = login_next(u, LoginStageView::Choice, choice);
            let s2 = login_next(s1.0, s1.1, name);
            let s3 = login_next(s2.0, s2.1, password);
            &&& s3.0.contains_key(name)
            &&& s3.0[name].name == name
            &&& s3.0[name].password == password
            &&& s3.0[name].friends.len() == 0
            &&& !s3.0[name].busy && !s3.0[name].private_chat
            &&& forall|k: Seq<char>|
                k != name ==> (s3.0.contains_key(k) == u.contains_key(k) && s3.0[k] == u[k])
            &&& s3.1 == LoginStageView::Choice
            &&& s3.2[0] == LoginActionView::Save(
                record_separator() + name + seq![' '] + password,
            )
            &&& s3.2.len() == 2
        }),
{
    let fields = user_fields(fresh_user(name, password));
    assert(fields =~= seq![name, password]);
    assert(fields.drop_first() =~= seq![password]);
    assert(join_with(fields.drop_first(), seq![' ']) == password);
    assert(join_with(fields, seq![' ']) == name + seq![' '] + password);
    assert(record_of(fields) =~= record_separator() + name + seq![' '] + password);
}

/// Logging in works: from the choice, an existing-account choice (a letter
/// `Y` and the line ending), the name of an account and its password log
/// in as that name, with nothing said and no account changed.
pub proof fn lemma_login(
    u: Map<Seq<char>, UserView>,
    choice: Seq<char>,
    name: Seq<char>,
    password: Seq<char>,
)
    requires
        choice.len() == 3,
        choice[0] == 'Y',
        u.contains_key(name),
        u[name].password == password,
    ensures
        ({
            let s1 = login_next(u, LoginStageView::Choice, choice);
            let s2 = login_next(s1.0, s1.1, name);
            let s3 = login_next(s2.0, s2.1, password);
            &&& s3.1 == LoginStageView::LoggedIn(name)
            &&& s3.0 == u
            &&& s3.2.len() == 0
        }),
{
}

/// The name step keeps the choice: after a name, the password is asked for
/// the same kind of account, under that name, with the registry unchanged.
pub proof fn lemma_name_keeps_choice(u: Map<Seq<char>, UserView>, existing: bool, name: Seq<char>)
    ensures
        login_next(u, LoginStageView::Name(existing), name).1 == LoginStageView::Password(
            existing,
            name,
        ),
        login_next(u, LoginStageView::Name(existing), name).0 == u,
{
}

/// The dialogue's first stage, with the choice prompt to show.
pub fn login_start() -> (res: (LoginStage, Vec<LoginAction>))
    ensures
        res.0@ == LoginStageView::Choice,
        login_actions(res.1@) == seq![LoginActionView::Say(choice_prompt())],
{
    let mut acts: Vec<LoginAction> = Vec::new();
    acts.push(LoginAction::Say(text("If existing user please enter Y or to create an account enter N ")));
    assert(login_actions(acts@) =~= seq![LoginActionView::Say(choice_prompt())]);
    (LoginStage::Choice, acts)
}

/// One step of the login dialogue, as `login_next` states it: `line` is the
/// line the user sent, with its line ending.
pub fn login_step(users: &mut User_info_map, stage: LoginStage, line: String) -> (res: (
    LoginStage,
    Vec<LoginAction>,
))
    requires
        old(users).wf(),
    ensures
        final(users).wf(),
        (final(users)@, res.0@, login_actions(res.1@)) == login_next(old(users)@, stage@, line@),
{
    let ghost u = users@;
    let ghost sv = stage@;
    let mut acts: Vec<LoginAction> = Vec::new();
    let next = match stage {
        LoginStage::Choice => {
            let n: usize = line.as_str().unicode_len();
            if n != 3 {
                acts.push(LoginAction::Say(text("If existing user please enter Y or to create an account enter N ")));
                LoginStage::Choice
            } else {
                let c = line.as_str().get_char(0);
                if c == 'Y' {
                    acts.push(LoginAction::Say(text("Please enter your user name : ")));
                    LoginStage::Name { existing: true }
                } else if c == 'N' {
                    acts.push(LoginAction::Say(text("Please enter your user name : ")));
                    LoginStage::Name { existing: false }
                } else {
                    acts.push(LoginAction::Say(text("Please give valid response \n")));
                    acts.push(LoginAction::Say(text("If existing user please enter Y or to create an account enter N ")));
                    LoginStage::Choice
                }
            }
        },
        LoginStage::Name { existing } => {
            acts.push(LoginAction::Say(text("Please enter your password : ")));
            LoginStage::Password { existing, name: line }
        },
        LoginStage::Password { existing, name } => {
            if existing {
                if users.contains_user(name.clone()) {
                    let password2 = users.get_password(name.clone());
                    if password2 == line {
                        LoginStage::LoggedIn { name }
                    } else {
                        acts.push(LoginAction::Say(text("incorrect password \n")));
                        acts.push(LoginAction::Say(text("If existing user please enter Y or to create an account enter N ")));
                        LoginStage::Choice
                    }
                } else {
                    acts.push(LoginAction::Say(text("no such user exists ! \n")));
                    acts.push(LoginAction::Say(text("If existing user please enter Y or to create an account enter N ")));
                    LoginStage::Choice
                }
            } else {
                let record = users.Create_user(name, line);
                acts.push(LoginAction::Save(record));
                acts.push(LoginAction::Say(text("If existing user please enter Y or to create an account enter N ")));
                LoginStage::Choice
            }
        },
        LoginStage::LoggedIn { name } => LoginStage::LoggedIn { name },
    };
    let ghost expected = login_next(u, sv, line@);
    assert(login_actions(acts@) =~= expected.2);
    (next, acts)
}

} // verus!
