use chatroom::User_info_map;

fn s(x: &str) -> String {
    x.to_string()
}

fn sorted(mut v: Vec<String>) -> Vec<String> {
    v.sort();
    v
}

#[test]
fn store_reads_names_passwords_and_friends() {
    let mut m = User_info_map::new(&s("alice pw1////////bob pw2 alice carol alice"));
    assert!(m.contains_user(s("alice")));
    assert!(m.contains_user(s("bob")));
    assert!(!m.contains_user(s("carol")));
    assert_eq!(m.get_password(s("alice")), "pw1");
    assert_eq!(m.get_password(s("bob")), "pw2");
    assert_eq!(m.get_friend_list(s("bob")), vec![s("alice"), s("carol")]);
    assert_eq!(m.get_friend_list(s("alice")), Vec::<String>::new());
    assert!(!m.get_busy(s("bob")));
    assert!(!m.get_priavte_chat(s("bob")));
    assert_eq!(sorted(m.get_users()), vec![s("alice"), s("bob")]);
}

#[test]
fn later_record_of_a_name_replaces_earlier_one() {
    let mut m = User_info_map::new(&s("alice pw1 bob////////alice pw2"));
    assert_eq!(m.get_password(s("alice")), "pw2");
    assert_eq!(m.get_friend_list(s("alice")), Vec::<String>::new());
    assert_eq!(m.get_users(), vec![s("alice")]);
}

#[test]
fn record_without_password_is_unreadable() {
    assert!(!User_info_map::store_is_readable(&s("")));
    assert!(!User_info_map::store_is_readable(&s("alice")));
    assert!(!User_info_map::store_is_readable(&s("alice pw////////bob")));
    assert!(User_info_map::store_is_readable(&s("alice pw////////bob ")));
    assert!(User_info_map::store_is_readable(&s("alice pw")));
}

#[test]
fn empty_password_field_is_kept() {
    let mut m = User_info_map::new(&s("alice pw////////bob "));
    assert_eq!(m.get_password(s("bob")), "");
}

#[test]
fn created_user_record_and_reload() {
    let store = s("alice pw1");
    let mut m = User_info_map::new(&store);
    let record = m.Create_user(s("carol"), s("secret"));
    assert_eq!(record, "////////carol secret");
    assert!(m.contains_user(s("carol")));
    assert_eq!(m.get_password(s("carol")), "secret");
    assert_eq!(m.get_friend_list(s("carol")), Vec::<String>::new());
    let mut reloaded = User_info_map::new(&(store + &record));
    assert_eq!(sorted(reloaded.get_users()), vec![s("alice"), s("carol")]);
    assert_eq!(reloaded.get_password(s("carol")), "secret");
}

#[test]
fn creating_an_existing_user_resets_it() {
    let mut m = User_info_map::new(&s("alice pw1 bob////////bob pw2"));
    m.set_busy_true(s("alice"));
    let record = m.Create_user(s("alice"), s("new"));
    assert_eq!(record, "////////alice new");
    assert_eq!(m.get_password(s("alice")), "new");
    assert_eq!(m.get_friend_list(s("alice")), Vec::<String>::new());
    assert!(!m.get_busy(s("alice")));
}

#[test]
fn added_friend_record_and_reload() {
    let store = s("alice pw1////////bob pw2 alice");
    let mut m = User_info_map::new(&store);
    let record = m.add_friend(s("bob"), s("carol"));
    assert_eq!(record, "////////bob pw2 alice carol");
    assert_eq!(m.get_friend_list(s("bob")), vec![s("alice"), s("carol")]);
    let mut reloaded = User_info_map::new(&(store + &record));
    assert_eq!(reloaded.get_friend_list(s("bob")), vec![s("alice"), s("carol")]);
    assert_eq!(reloaded.get_password(s("bob")), "pw2");
}

#[test]
fn adding_a_friend_twice_lists_it_once() {
    let mut m = User_info_map::new(&s("alice pw1////////bob pw2"));
    let first = m.add_friend(s("bob"), s("alice"));
    let second = m.add_friend(s("bob"), s("alice"));
    assert_eq!(first, "////////bob pw2 alice");
    assert_eq!(second, "////////bob pw2 alice alice");
    assert_eq!(m.get_friend_list(s("bob")), vec![s("alice")]);
    let mut reloaded = User_info_map::new(&(s("alice pw1////////bob pw2") + &first + &second));
    assert_eq!(reloaded.get_friend_list(s("bob")), vec![s("alice")]);
}

#[test]
fn flags_read_back_as_set() {
    let mut m = User_info_map::new(&s("alice pw////////bob pw"));
    m.set_busy_true(s("alice"));
    assert!(m.get_busy(s("alice")));
    assert!(!m.get_busy(s("bob")));
    assert!(!m.get_priavte_chat(s("alice")));
    m.set_private_chat_true(s("bob"));
    assert!(m.get_priavte_chat(s("bob")));
    assert!(!m.get_busy(s("bob")));
    m.set_busy_false(s("alice"));
    assert!(!m.get_busy(s("alice")));
    m.set_private_chat_false(s("bob"));
    assert!(!m.get_priavte_chat(s("bob")));
    assert_eq!(m.get_password(s("bob")), "pw");
}

#[test]
fn names_keep_their_line_endings() {
    let mut m = User_info_map::new(&s("alice\r\n pw\r\n"));
    assert!(m.contains_user(s("alice\r\n")));
    assert!(!m.contains_user(s("alice")));
    assert_eq!(m.get_password(s("alice\r\n")), "pw\r\n");
}

#[test]
fn a_whole_session_reads_back() {
    let store = s("alice pw1////////bob pw2 alice");
    let mut m = User_info_map::new(&store);
    let mut appended = String::new();
    appended += &m.Create_user(s("carol"), s("pw3"));
    m.set_busy_true(s("carol"));
    appended += &m.add_friend(s("carol"), s("alice"));
    m.set_private_chat_true(s("alice"));
    appended += &m.add_friend(s("alice"), s("bob"));
    appended += &m.Create_user(s("bob"), s("pw4"));
    let mut r = User_info_map::new(&(store + &appended));
    assert_eq!(sorted(r.get_users()), sorted(m.get_users()));
    for name in ["alice", "bob", "carol"] {
        assert_eq!(r.get_password(s(name)), m.get_password(s(name)));
        assert_eq!(r.get_friend_list(s(name)), m.get_friend_list(s(name)));
        assert!(!r.get_busy(s(name)));
        assert!(!r.get_priavte_chat(s(name)));
    }
    assert!(m.get_busy(s("carol")));
    assert!(m.get_priavte_chat(s("alice")));
}

#[test]
fn flags_read_back_the_last_value_set() {
    let mut m = User_info_map::new(&s("alice pw////////bob pw"));
    m.set_busy_true(s("alice"));
    m.set_private_chat_true(s("alice"));
    m.set_busy_false(s("bob"));
    let _ = m.add_friend(s("alice"), s("bob"));
    m.set_busy_false(s("alice"));
    m.set_busy_true(s("alice"));
    assert!(m.get_busy(s("alice")));
    assert!(m.get_priavte_chat(s("alice")));
    let _ = m.Create_user(s("alice"), s("again"));
    assert!(!m.get_busy(s("alice")));
    assert!(!m.get_priavte_chat(s("alice")));
}
