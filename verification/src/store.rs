//! The text store that persists the registry: records separated by eight
//! slashes, each record a name, a password and friends separated by single
//! spaces. Later records of a name replace earlier ones.
use vstd::prelude::*;
use vstd::string::*;
use crate::text::{
    join_with, lemma_join_no_occurrence, lemma_pieces_avoid, lemma_pieces_clean,
    lemma_split_append, lemma_split_join, lemma_split_whole, occurs_in, split_on, split_text,
    uniform, views,
};
use crate::users::{
    add_unique, apply_op, apply_ops, fresh_user, lemma_friend_added, ops_allowed, push_unique,
    record_of, record_separator, user_fields, with_busy, with_friend, with_private_chat,
    RegistryOp, UserView, User_info, User_info_map,
};

verus! {

/// `s` with repeated entries removed, keeping first occurrences in order.
pub open spec fn dedup(s: Seq<Seq<char>>) -> Seq<Seq<char>>
    decreases s.len(),
{
    if s.len() == 0 {
        seq![]
    } else {
        add_unique(dedup(s.drop_last()), s.last())
    }
}

/// The user a record's fields describe: name, password, the remaining
/// fields as friends (each once), no flags raised.
pub open spec fn user_from_fields(fields: Seq<Seq<char>>) -> UserView {
    UserView {
        name: fields[0],
        password: fields[1],
        friends: dedup(fields.skip(2)),
        busy: false,
        private_chat: false,
    }
}

/// Reads the records `recs` in order into `m`; `None` as soon as a record
/// has fewer than two fields.
pub open spec fn load_records(recs: Seq<Seq<char>>, m: Map<Seq<char>, UserView>) -> Option<
    Map<Seq<char>, UserView>,
>
    decreases recs.len(),
{
    if recs.len() == 0 {
        Some(m)
    } else {
        let fields = split_on(recs[0], seq![' ']);
        if fields.len() < 2 {
            None
        } else {
            load_records(recs.drop_first(), m.insert(fields[0], user_from_fields(fields)))
        }
    }
}

/// The registry that the store text `s` describes, or `None` where a record
/// lacks a password field.
pub open spec fn parse_store(s: Seq<char>) -> Option<Map<Seq<char>, UserView>> {
    load_records(split_on(s, record_separator()), Map::empty())
}

/// A field that can be written to the store and read back: it holds no
/// space and no record separator.
pub open spec fn storable(t: Seq<char>) -> bool {
    !t.contains(' ') && !occurs_in(t, record_separator())
}

/// What the store keeps of a user: everything but the two flags.
pub open spec fn stored_user(u: UserView) -> UserView {
    UserView { busy: false, private_chat: false, ..u }
}

/// What the store keeps of a registry.
pub open spec fn stored(m: Map<Seq<char>, UserView>) -> Map<Seq<char>, UserView> {
    m.map_values(|u: UserView| stored_user(u))
}

/// Each user is kept under its own name and lists each friend once, as in
/// every registry.
pub open spec fn consistent(m: Map<Seq<char>, UserView>) -> bool {
    forall|k: Seq<char>|
        #[trigger] m.contains_key(k) ==> m[k].name == k && m[k].friends.no_duplicates()
}

proof fn lemma_load_append(recs: Seq<Seq<char>>, r: Seq<char>, m: Map<Seq<char>, UserView>)
    requires
        load_records(recs, m) is Some,
    ensures
        load_records(recs.push(r), m) == load_records(seq![r], load_records(recs, m)->0),
    decreases recs.len(),
{
    if recs.len() > 0 {
        let fields = split_on(recs[0], seq![' ']);
        assert(recs.push(r).drop_first() =~= recs.drop_first().push(r));
        assert(recs.push(r)[0] == recs[0]);
        lemma_load_append(recs.drop_first(), r, m.insert(fields[0], user_from_fields(fields)));
    } else {
        assert(recs.push(r) =~= seq![r]);
    }
}

proof fn lemma_dedup_unique(s: Seq<Seq<char>>)
    requires
        s.no_duplicates(),
    ensures
        dedup(s) == s,
    decreases s.len(),
{
    if s.len() > 0 {
        let t = s.drop_last();
        assert forall|a: int, b: int| 0 <= a < b < t.len() implies t[a] != t[b] by {
            assert(s[a] != s[b]);
        }
        lemma_dedup_unique(t);
        assert(!t.contains(s.last())) by {
            if t.contains(s.last()) {
                let j: int = choose|j: int| 0 <= j < t.len() && t[j] == s.last();
                assert(s[j] == s[s.len() - 1]);
            }
        }
        assert(t.push(s.last()) =~= s);
    }
}

proof fn lemma_stored_insert(m: Map<Seq<char>, UserView>, k: Seq<char>, v: UserView)
    ensures
        stored(m.insert(k, v)) == stored(m).insert(k, stored_user(v)),
{
    assert(stored(m.insert(k, v)) =~= stored(m).insert(k, stored_user(v)));
}

/// Appending a record to a store: the store reads back as before with the
/// record's user stored under its name (replacing an earlier user of that
/// name).
pub proof fn lemma_store_append(s: Seq<char>, fields: Seq<Seq<char>>)
    requires
        parse_store(s) is Some,
        s.len() == 0 || s.last() != '/',
        fields.len() >= 2,
        forall|k: int| 0 <= k < fields.len() ==> storable(#[trigger] fields[k]),
    ensures
        parse_store(s + record_of(fields)) == Some(
            parse_store(s)->0.insert(fields[0], user_from_fields(fields)),
        ),
{
    let sep = record_separator();
    let body = join_with(fields, seq![' ']);
    assert(uniform(sep, '/'));
    assert(s + record_of(fields) =~= s + sep + body);
    lemma_split_append(s, body, sep, '/', seq![]);
    assert forall|k: int| 0 <= k < fields.len() implies !(#[trigger] fields[k]).contains(' ') by {
        assert(storable(fields[k]));
    }
    assert forall|k: int| 0 <= k < fields.len() implies !occurs_in(#[trigger] fields[k], sep) by {
        assert(storable(fields[k]));
    }
    assert(!sep.contains(' ')) by {
        if sep.contains(' ') {
            let j: int = choose|j: int| 0 <= j < sep.len() && sep[j] == ' ';
        }
    }
    lemma_join_no_occurrence(fields, ' ', sep);
    lemma_split_whole(body, sep, seq![]);
    assert(Seq::<char>::empty() + body =~= body);
    let recs = split_on(s, sep);
    assert(recs + seq![body] =~= recs.push(body));
    lemma_load_append(recs, body, Map::empty());
    lemma_split_join(fields, ' ');
    let m = parse_store(s)->0;
    assert(split_on(s + record_of(fields), sep) == recs.push(body));
    assert(seq![body][0] == body);
    assert(seq![body].drop_first() =~= Seq::<Seq<char>>::empty());
    assert(split_on(body, seq![' ']) == fields);
    assert(load_records(seq![body], m) == load_records(
        Seq::<Seq<char>>::empty(),
        m.insert(fields[0], user_from_fields(fields)),
    ));
}

/// A created account survives in the store: if the store read back as what
/// the registry keeps before `Create_user`, then with the record that
/// `Create_user` returns appended it reads back as what the registry keeps
/// after it.
pub proof fn lemma_created_user_persists(
    s: Seq<char>,
    before: Map<Seq<char>, UserView>,
    name: Seq<char>,
    password: Seq<char>,
)
    requires
        parse_store(s) == Some(stored(before)),
        s.len() == 0 || s.last() != '/',
        storable(name),
        storable(password),
    ensures
        parse_store(s + record_of(user_fields(fresh_user(name, password)))) == Some(
            stored(before.insert(name, fresh_user(name, password))),
        ),
{
    let fields = user_fields(fresh_user(name, password));
    assert(fields =~= seq![name, password]);
    lemma_store_append(s, fields);
    assert(fields.skip(2) =~= Seq::<Seq<char>>::empty());
    assert(user_from_fields(fields) == stored_user(fresh_user(name, password)));
    lemma_stored_insert(before, name, fresh_user(name, password));
}

/// An added friend survives in the store: if the store read back as what
/// the registry keeps before `add_friend`, then with the record that
/// `add_friend` returns appended it reads back as what the registry keeps
/// after it.
pub proof fn lemma_added_friend_persists(
    s: Seq<char>,
    before: Map<Seq<char>, UserView>,
    name: Seq<char>,
    friend: Seq<char>,
)
    requires
        consistent(before),
        before.contains_key(name),
        parse_store(s) == Some(stored(before)),
        s.len() == 0 || s.last() != '/',
        forall|k: int|
            0 <= k < user_fields(before[name]).len() ==> storable(
                #[trigger] user_fields(before[name])[k],
            ),
        storable(friend),
    ensures
        parse_store(s + record_of(user_fields(before[name]).push(friend))) == Some(
            stored(with_friend(before, name, friend)),
        ),
{
    let u = before[name];
    let fields = user_fields(u).push(friend);
    assert forall|k: int| 0 <= k < fields.len() implies storable(#[trigger] fields[k]) by {
        if k < user_fields(u).len() {
            assert(fields[k] == user_fields(u)[k]);
        }
    }
    lemma_store_append(s, fields);
    assert(fields.skip(2) =~= u.friends.push(friend));
    assert(fields.skip(2).drop_last() =~= u.friends);
    lemma_dedup_unique(u.friends);
    let nu = UserView { friends: add_unique(u.friends, friend), ..u };
    assert(user_from_fields(fields) == stored_user(nu));
    lemma_stored_insert(before, name, nu);
}

proof fn lemma_dedup_no_duplicates(s: Seq<Seq<char>>)
    ensures
        dedup(s).no_duplicates(),
    decreases s.len(),
{
    if s.len() > 0 {
        let d = dedup(s.drop_last());
        lemma_dedup_no_duplicates(s.drop_last());
        if !d.contains(s.last()) {
            let r = d.push(s.last());
            assert forall|a: int, b: int| 0 <= a < b < r.len() implies r[a] != r[b] by {
                if b == d.len() {
                    assert(d.contains(d[a]));
                }
            }
        }
    }
}

proof fn lemma_load_keeps(recs: Seq<Seq<char>>, m: Map<Seq<char>, UserView>)
    requires
        load_records(recs, m) is Some,
        stored(m) == m,
        consistent(m),
    ensures
        stored(load_records(recs, m)->0) == load_records(recs, m)->0,
        consistent(load_records(recs, m)->0),
    decreases recs.len(),
{
    if recs.len() > 0 {
        let fields = split_on(recs[0], seq![' ']);
        let u = user_from_fields(fields);
        lemma_dedup_no_duplicates(fields.skip(2));
        lemma_stored_insert(m, fields[0], u);
        assert(stored_user(u) == u);
        lemma_load_keeps(recs.drop_first(), m.insert(fields[0], u));
    }
}

/// A registry read from a store is what the store keeps of it (no flag is
/// raised), and is consistent: every user under its own name, each friend
/// once.
pub proof fn lemma_loaded_store(s: Seq<char>)
    requires
        parse_store(s) is Some,
    ensures
        stored(parse_store(s)->0) == parse_store(s)->0,
        consistent(parse_store(s)->0),
{
    assert(stored(Map::<Seq<char>, UserView>::empty()) =~= Map::<Seq<char>, UserView>::empty());
    lemma_load_keeps(split_on(s, record_separator()), Map::empty());
}

/// A text that does not end in a slash.
pub open spec fn no_slash_end(t: Seq<char>) -> bool {
    t.len() == 0 || t.last() != '/'
}

proof fn lemma_join_end(toks: Seq<Seq<char>>)
    requires
        toks.len() >= 2,
        no_slash_end(toks.last()),
    ensures
        join_with(toks, seq![' ']).len() > 0,
        join_with(toks, seq![' ']).last() != '/',
    decreases toks.len(),
{
    let rest = toks.drop_first();
    let j = join_with(rest, seq![' ']);
    assert(rest.last() == toks.last());
    if rest.len() >= 2 {
        lemma_join_end(rest);
    } else {
        assert(j == rest[0]);
    }
    let x = toks[0] + seq![' '] + j;
    if j.len() > 0 {
        assert(x.last() == j.last());
    } else {
        assert(x.last() == ' ');
    }
}

proof fn lemma_record_end(fields: Seq<Seq<char>>)
    requires
        fields.len() >= 2,
        no_slash_end(fields.last()),
    ensures
        no_slash_end(record_of(fields)),
        record_of(fields).len() > 0,
{
    lemma_join_end(fields);
    let j = join_with(fields, seq![' ']);
    assert(record_of(fields).last() == j.last());
}

/// Every field of every user can be written to the store and read back.
pub open spec fn all_storable(m: Map<Seq<char>, UserView>) -> bool {
    forall|k: Seq<char>|
        #[trigger] m.contains_key(k) ==> forall|j: int|
            0 <= j < user_fields(m[k]).len() ==> storable(#[trigger] user_fields(m[k])[j])
}

proof fn lemma_dedup_subset(s: Seq<Seq<char>>, x: Seq<char>)
    requires
        dedup(s).contains(x),
    ensures
        s.contains(x),
    decreases s.len(),
{
    if s.len() > 0 {
        let d = dedup(s.drop_last());
        if d.contains(x) {
            lemma_dedup_subset(s.drop_last(), x);
            let i: int = choose|i: int| 0 <= i < s.drop_last().len() && s.drop_last()[i] == x;
            assert(s[i] == x);
        } else {
            assert(x == s.last());
            assert(s[s.len() - 1] == x);
        }
    }
}

proof fn lemma_record_fields_storable(rec: Seq<char>)
    requires
        !occurs_in(rec, record_separator()),
    ensures
        forall|j: int|
            0 <= j < split_on(rec, seq![' ']).len() ==> storable(
                #[trigger] split_on(rec, seq![' '])[j],
            ),
{
    let toks = split_on(rec, seq![' ']);
    lemma_pieces_clean(rec, seq![' '], seq![]);
    assert(Seq::<char>::empty() + rec =~= rec);
    lemma_pieces_avoid(rec, seq![' '], seq![], record_separator());
    assert forall|j: int| 0 <= j < toks.len() implies storable(#[trigger] toks[j]) by {
        if toks[j].contains(' ') {
            let i: int = choose|i: int| 0 <= i < toks[j].len() && toks[j][i] == ' ';
            assert(toks[j].subrange(i, i + 1) =~= seq![' ']);
            assert(occurs_in(toks[j], seq![' ']));
        }
    }
}

proof fn lemma_load_storable(recs: Seq<Seq<char>>, m: Map<Seq<char>, UserView>)
    requires
        load_records(recs, m) is Some,
        all_storable(m),
        forall|i: int| 0 <= i < recs.len() ==> !occurs_in(#[trigger] recs[i], record_separator()),
    ensures
        all_storable(load_records(recs, m)->0),
    decreases recs.len(),
{
    if recs.len() > 0 {
        let toks = split_on(recs[0], seq![' ']);
        let u = user_from_fields(toks);
        lemma_record_fields_storable(recs[0]);
        assert forall|j: int| 0 <= j < user_fields(u).len() implies storable(
            #[trigger] user_fields(u)[j],
        ) by {
            if j >= 2 {
                let f = user_fields(u)[j];
                assert(dedup(toks.skip(2)).contains(f)) by {
                    assert(dedup(toks.skip(2))[j - 2] == f);
                }
                lemma_dedup_subset(toks.skip(2), f);
                let i: int = choose|i: int| 0 <= i < toks.skip(2).len() && toks.skip(2)[i] == f;
                assert(toks[i + 2] == f);
            } else if j == 0 {
                assert(user_fields(u)[j] == toks[0]);
            } else {
                assert(user_fields(u)[j] == toks[1]);
            }
        }
        let m1 = m.insert(toks[0], u);
        assert(all_storable(m1));
        let rest = recs.drop_first();
        assert forall|i: int| 0 <= i < rest.len() implies !occurs_in(
            #[trigger] rest[i],
            record_separator(),
        ) by {
            assert(rest[i] == recs[i + 1]);
        }
        lemma_load_storable(rest, m1);
    }
}

/// Every field a registry read from a store holds can be written back:
/// none holds a space or a record separator.
pub proof fn lemma_loaded_storable(s: Seq<char>)
    requires
        parse_store(s) is Some,
    ensures
        all_storable(parse_store(s)->0),
{
    lemma_pieces_clean(s, record_separator(), seq![]);
    lemma_load_storable(split_on(s, record_separator()), Map::empty());
}

/// The record that a call appends to the store: `Create_user` and
/// `add_friend` return one, the flag setters none.
pub open spec fn op_record(m: Map<Seq<char>, UserView>, op: RegistryOp) -> Seq<char> {
    match op {
        RegistryOp::Create(n, p) => record_of(user_fields(fresh_user(n, p))),
        RegistryOp::Befriend(n, f) => record_of(user_fields(m[n]).push(f)),
        _ => seq![],
    }
}

/// The records that the calls `ops` append, in order.
pub open spec fn ops_records(m: Map<Seq<char>, UserView>, ops: Seq<RegistryOp>) -> Seq<char>
    decreases ops.len(),
{
    if ops.len() == 0 {
        seq![]
    } else {
        op_record(m, ops[0]) + ops_records(apply_op(m, ops[0]), ops.drop_first())
    }
}

/// The record a call appends can be read back: the fields it adds hold no
/// space and no separator, and it does not end in a slash.
pub open spec fn op_storable(m: Map<Seq<char>, UserView>, op: RegistryOp) -> bool {
    match op {
        RegistryOp::Create(n, p) => storable(n) && storable(p) && no_slash_end(p),
        RegistryOp::Befriend(n, f) => storable(f) && no_slash_end(f),
        _ => true,
    }
}

/// Each of the calls `ops` appends a record that can be read back.
pub open spec fn ops_storable(m: Map<Seq<char>, UserView>, ops: Seq<RegistryOp>) -> bool
    decreases ops.len(),
{
    ops.len() == 0 || (op_storable(m, ops[0]) && ops_storable(apply_op(m, ops[0]), ops.drop_first()))
}

/// A whole session survives in the store: if the store read back as what
/// the registry keeps, then after any sequence of calls, with the records
/// they return appended, it reads back as what the registry keeps after
/// them: the same users, passwords and friends.
pub proof fn lemma_session_persists(s: Seq<char>, m: Map<Seq<char>, UserView>, ops: Seq<RegistryOp>)
    requires
        parse_store(s) == Some(stored(m)),
        consistent(m),
        all_storable(m),
        no_slash_end(s),
        ops_allowed(m, ops),
        ops_storable(m, ops),
    ensures
        parse_store(s + ops_records(m, ops)) == Some(stored(apply_ops(m, ops))),
    decreases ops.len(),
{
    if ops.len() == 0 {
        assert(s + Seq::<char>::empty() =~= s);
    } else {
        let op = ops[0];
        let m1 = apply_op(m, op);
        let r0 = op_record(m, op);
        match op {
            RegistryOp::Create(n, p) => {
                lemma_created_user_persists(s, m, n, p);
                assert(user_fields(fresh_user(n, p)) =~= seq![n, p]);
                lemma_record_end(user_fields(fresh_user(n, p)));
                assert(consistent(m1));
                assert(all_storable(m1));
            },
            RegistryOp::Befriend(n, f) => {
                lemma_added_friend_persists(s, m, n, f);
                lemma_record_end(user_fields(m[n]).push(f));
                lemma_friend_added(m, n, f);
                assert(consistent(m1));
                let nf = user_fields(m1[n]);
                assert forall|j: int| 0 <= j < nf.len() implies storable(#[trigger] nf[j]) by {
                    if j >= 2 {
                        let x = nf[j];
                        if x != f {
                            assert(add_unique(m[n].friends, f)[j - 2] == x);
                            if !m[n].friends.contains(f) {
                                assert(j - 2 < m[n].friends.len());
                            }
                            assert(user_fields(m[n])[j] == x);
                        }
                    } else {
                        assert(nf[j] == user_fields(m[n])[j]);
                    }
                }
                assert(all_storable(m1));
            },
            RegistryOp::Busy(n, b) => {
                assert(stored(m1) =~= stored(m));
                assert(s + r0 =~= s);
                assert(consistent(m1));
                assert forall|k: Seq<char>| #[trigger] m1.contains_key(k) implies user_fields(m1[k])
                    == user_fields(m[k]) by {
                    assert(user_fields(m1[k]) =~= user_fields(m[k]));
                }
                assert(all_storable(m1));
            },
            RegistryOp::Private(n, b) => {
                assert(stored(m1) =~= stored(m));
                assert(s + r0 =~= s);
                assert(consistent(m1));
                assert forall|k: Seq<char>| #[trigger] m1.contains_key(k) implies user_fields(m1[k])
                    == user_fields(m[k]) by {
                    assert(user_fields(m1[k]) =~= user_fields(m[k]));
                }
                assert(all_storable(m1));
            },
        }
        lemma_session_persists(s + r0, m1, ops.drop_first());
        assert(s + ops_records(m, ops) =~= (s + r0) + ops_records(m1, ops.drop_first()));
    }
}

/// Restarting after a session: a store read when the session began, with
/// the records that the session's calls returned appended, reads back as
/// what the registry keeps at the session's end.
pub proof fn lemma_reload_after_session(s: Seq<char>, ops: Seq<RegistryOp>)
    requires
        parse_store(s) is Some,
        no_slash_end(s),
        ops_allowed(parse_store(s)->0, ops),
        ops_storable(parse_store(s)->0, ops),
    ensures
        parse_store(s + ops_records(parse_store(s)->0, ops)) == Some(
            stored(apply_ops(parse_store(s)->0, ops)),
        ),
{
    lemma_loaded_store(s);
    lemma_loaded_storable(s);
    lemma_session_persists(s, parse_store(s)->0, ops);
}

impl User_info_map {
    fn load(contents: &String) -> (res: Option<User_info_map>)
        ensures
            match res {
                Some(m) => m.wf() && parse_store(contents@) == Some(m@),
                None => parse_store(contents@) is None,
            },
    {
        let sep: Vec<char> = vec!['/', '/', '/', '/', '/', '/', '/', '/'];
        let space: Vec<char> = vec![' '];
        assert(sep@ =~= record_separator());
        assert(space@ =~= seq![' ']);
        let recs = split_text(contents.as_str(), &sep);
        let ghost all = views(recs@);
        let mut map = User_info_map::empty();
        let mut i: usize = 0;
        assert(all.skip(0) =~= all);
        while i < recs.len()
            invariant
                i <= recs@.len(),
                all == views(recs@),
                space@ == seq![' '],
                map.wf(),
                parse_store(contents@) == load_records(all.skip(i as int), map@),
            decreases recs@.len() - i,
        {
            let fields = split_text(recs[i].as_str(), &space);
            let ghost fv = views(fields@);
            assert(all.skip(i as int)[0] == recs@[i as int]@);
            assert(all.skip(i as int).drop_first() =~= all.skip(i + 1));
            if fields.len() < 2 {
                return None;
            }
            let mut friends: Vec<String> = Vec::new();
            let mut k: usize = 2;
            assert(fv.skip(2).take(0) =~= Seq::<Seq<char>>::empty());
            assert(views(friends@) =~= Seq::<Seq<char>>::empty());
            while k < fields.len()
                invariant
                    2 <= k <= fields@.len(),
                    fv == views(fields@),
                    views(friends@) == dedup(fv.skip(2).take(k - 2)),
                    views(friends@).no_duplicates(),
                decreases fields@.len() - k,
            {
                push_unique(&mut friends, fields[k].clone());
                assert(fv.skip(2).take(k - 2 + 1).drop_last() =~= fv.skip(2).take(k - 2));
                assert(fv.skip(2).take(k - 2 + 1).last() == fv[k as int]);
                k = k + 1;
            }
            assert(fv.skip(2).take(k - 2) =~= fv.skip(2));
            let u = User_info::from_fields(fields[0].clone(), fields[1].clone(), friends);
            assert(u@ == user_from_fields(fv));
            map.put(u);
            i = i + 1;
        }
        Some(map)
    }

    /// Whether the store text `contents` can be read: every record has a
    /// name and a password field.
    pub fn store_is_readable(contents: &String) -> (res: bool)
        ensures
            res == parse_store(contents@) is Some,
    {
        match User_info_map::load(contents) {
            Some(_) => true,
            None => false,
        }
    }

    /// The registry that the store text `contents` describes: each record's
    /// first field is a name, its second the password and the rest the
    /// friends; a later record of a name replaces an earlier one; no flag is
    /// raised.
    pub fn new(contents: &String) -> (res: User_info_map)
        requires
            parse_store(contents@) is Some,
        ensures
            res.wf(),
            res@ == parse_store(contents@)->0,
    {
        match User_info_map::load(contents) {
            Some(m) => m,
            None => {
                assert(false);
                User_info_map::empty()
            },
        }
    }
}

} // verus!
