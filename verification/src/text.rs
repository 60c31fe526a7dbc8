//! Splitting and joining lines of text on separators, in the way the
//! user store and the dialogues read and write them.
use vstd::prelude::*;
use vstd::string::*;
use vstd::std_specs::iter::IteratorSpec;

verus! {

broadcast use vstd::string::group_string_axioms;

/// `s` begins with the non-empty pattern `p`.
pub open spec fn starts_with(s: Seq<char>, p: Seq<char>) -> bool {
    0 < p.len() <= s.len() && s.take(p.len() as int) == p
}

/// The pattern `p` occurs somewhere in `t`.
pub open spec fn occurs_in(t: Seq<char>, p: Seq<char>) -> bool {
    exists|i: int| 0 <= i && i + p.len() <= t.len() && #[trigger] t.subrange(i, i + p.len()) == p
}

/// A separator made of one character `c` repeated at least once.
pub open spec fn uniform(sep: Seq<char>, c: char) -> bool {
    sep.len() > 0 && forall|i: int| 0 <= i < sep.len() ==> sep[i] == c
}

/// The pieces of `s` between the occurrences of `sep`, found from the left
/// without overlap, where the first piece begins with `cur`: the way
/// `str::split` cuts a string at a non-empty pattern.
pub open spec fn split_from(s: Seq<char>, sep: Seq<char>, cur: Seq<char>) -> Seq<Seq<char>>
    decreases s.len(),
{
    if s.len() == 0 {
        seq![cur]
    } else if starts_with(s, sep) {
        seq![cur] + split_from(s.skip(sep.len() as int), sep, seq![])
    } else {
        split_from(s.drop_first(), sep, cur.push(s[0]))
    }
}

/// The pieces of `s` between the occurrences of `sep`.
pub open spec fn split_on(s: Seq<char>, sep: Seq<char>) -> Seq<Seq<char>> {
    split_from(s, sep, seq![])
}

/// The pieces `toks` written one after the other with `sep` between them.
pub open spec fn join_with(toks: Seq<Seq<char>>, sep: Seq<char>) -> Seq<char>
    decreases toks.len(),
{
    if toks.len() == 0 {
        seq![]
    } else if toks.len() == 1 {
        toks[0]
    } else {
        toks[0] + sep + join_with(toks.drop_first(), sep)
    }
}

/// The views of a vector of strings.
pub open spec fn views(v: Seq<String>) -> Seq<Seq<char>> {
    v.map_values(|x: String| x@)
}

/// A received line without its last two characters, the line ending that
/// a terminal client sends (`\r\n`); shorter lines become empty.
pub open spec fn drop_line_end(s: Seq<char>) -> Seq<char> {
    if s.len() >= 2 {
        s.take(s.len() - 2)
    } else {
        seq![]
    }
}

/// A string with no occurrence of `sep` is a single piece.
pub proof fn lemma_split_whole(s: Seq<char>, sep: Seq<char>, cur: Seq<char>)
    requires
        sep.len() > 0,
        !occurs_in(s, sep),
    ensures
        split_from(s, sep, cur) == seq![cur + s],
    decreases s.len(),
{
    if s.len() == 0 {
        assert(cur + s =~= cur);
    } else {
        if starts_with(s, sep) {
            assert(s.take(sep.len() as int) =~= s.subrange(0int, 0int + sep.len()));
        }
        let t = s.drop_first();
        assert forall|i: int| 0 <= i && i + sep.len() <= t.len() implies #[trigger] t.subrange(
            i,
            i + sep.len(),
        ) != sep by {
            assert(t.subrange(i, i + sep.len()) =~= s.subrange(i + 1, i + 1 + sep.len()));
        }
        lemma_split_whole(t, sep, cur.push(s[0]));
        assert(cur.push(s[0]) + t =~= cur + s);
    }
}

/// Splitting `a`, a separator and `b` gives the pieces of `a` followed by
/// those of `b`, when the separator repeats one character that `a` does not
/// end with (so no occurrence straddles the join).
pub proof fn lemma_split_append(a: Seq<char>, b: Seq<char>, sep: Seq<char>, c: char, cur: Seq<char>)
    requires
        uniform(sep, c),
        a.len() == 0 || a.last() != c,
    ensures
        split_from(a + sep + b, sep, cur) == split_from(a, sep, cur) + split_from(b, sep, seq![]),
    decreases a.len(),
{
    let x = a + sep + b;
    if a.len() == 0 {
        assert(x =~= sep + b);
        assert(x.take(sep.len() as int) =~= sep);
        assert(x.skip(sep.len() as int) =~= b);
    } else {
        if a.len() >= sep.len() {
            assert(x.take(sep.len() as int) =~= a.take(sep.len() as int));
        } else {
            assert(x.take(sep.len() as int)[a.len() - 1] == a.last());
            assert(sep[a.len() - 1] == c);
        }
        if starts_with(a, sep) {
            let a2 = a.skip(sep.len() as int);
            assert(x.skip(sep.len() as int) =~= a2 + sep + b);
            if a2.len() > 0 {
                assert(a2.last() == a.last());
            }
            lemma_split_append(a2, b, sep, c, seq![]);
            assert(seq![cur] + (split_from(a2, sep, seq![]) + split_from(b, sep, seq![])) =~= (
            seq![cur] + split_from(a2, sep, seq![])) + split_from(b, sep, seq![]));
        } else {
            let a2 = a.drop_first();
            assert(x.drop_first() =~= a2 + sep + b);
            assert(x[0] == a[0]);
            if a2.len() > 0 {
                assert(a2.last() == a.last());
            }
            lemma_split_append(a2, b, sep, c, cur.push(a[0]));
        }
    }
}

/// Pieces written with a one-character separator that none of them holds
/// are split back into the same pieces.
pub proof fn lemma_split_join(toks: Seq<Seq<char>>, c: char)
    requires
        toks.len() >= 1,
        forall|k: int| 0 <= k < toks.len() ==> !(#[trigger] toks[k]).contains(c),
    ensures
        split_on(join_with(toks, seq![c]), seq![c]) == toks,
    decreases toks.len(),
{
    let sep = seq![c];
    let t0 = toks[0];
    assert(!occurs_in(t0, sep)) by {
        if occurs_in(t0, sep) {
            let i: int = choose|i: int|
                0 <= i && i + sep.len() <= t0.len() && #[trigger] t0.subrange(i, i + sep.len())
                    == sep;
            assert(t0.subrange(i, i + 1)[0] == t0[i]);
            assert(t0.contains(c));
        }
    }
    if toks.len() == 1 {
        lemma_split_whole(t0, sep, seq![]);
        assert(seq![Seq::<char>::empty() + t0] =~= toks);
    } else {
        let rest = toks.drop_first();
        assert forall|k: int| 0 <= k < rest.len() implies !(#[trigger] rest[k]).contains(c) by {
            assert(rest[k] == toks[k + 1]);
        }
        lemma_split_join(rest, c);
        if t0.len() > 0 {
            assert(t0.contains(t0.last()));
        }
        lemma_split_append(t0, join_with(rest, sep), sep, c, seq![]);
        lemma_split_whole(t0, sep, seq![]);
        assert(Seq::<char>::empty() + t0 =~= t0);
        assert(seq![t0] + rest =~= toks);
    }
}

/// A pattern without the character `c` does not occur in pieces joined by
/// `c` when it occurs in none of the pieces.
pub proof fn lemma_join_no_occurrence(toks: Seq<Seq<char>>, c: char, p: Seq<char>)
    requires
        p.len() > 0,
        !p.contains(c),
        forall|k: int| 0 <= k < toks.len() ==> !occurs_in(#[trigger] toks[k], p),
    ensures
        !occurs_in(join_with(toks, seq![c]), p),
    decreases toks.len(),
{
    if toks.len() == 0 {
        assert forall|i: int| 0 <= i && i + p.len() <= 0 implies #[trigger] Seq::<char>::empty().subrange(
            i,
            i + p.len(),
        ) != p by {}
    } else if toks.len() == 1 {
        assert(!occurs_in(toks[0], p));
    } else {
        let t0 = toks[0];
        let rest = toks.drop_first();
        assert forall|k: int| 0 <= k < rest.len() implies !occurs_in(#[trigger] rest[k], p) by {
            assert(rest[k] == toks[k + 1]);
        }
        lemma_join_no_occurrence(rest, c, p);
        let j = join_with(rest, seq![c]);
        let x = t0 + seq![c] + j;
        assert(!occurs_in(t0, p));
        assert forall|i: int| 0 <= i && i + p.len() <= x.len() implies #[trigger] x.subrange(
            i,
            i + p.len(),
        ) != p by {
            let n: int = t0.len() as int;
            if i + p.len() <= n {
                assert(x.subrange(i, i + p.len()) =~= t0.subrange(i, i + p.len()));
            } else if i > n {
                assert(x.subrange(i, i + p.len()) =~= j.subrange(i - n - 1, i - n - 1 + p.len()));
            } else {
                if x.subrange(i, i + p.len()) == p {
                    assert(x.subrange(i, i + p.len())[n - i] == c);
                    assert(p[n - i] == c);
                    assert(p.contains(c));
                }
            }
        }
    }
}

/// A pattern that occurs in part of a text occurs in the text.
pub proof fn lemma_occurs_in_part(t: Seq<char>, a: int, b: int, q: Seq<char>)
    requires
        0 <= a <= b <= t.len(),
        occurs_in(t.subrange(a, b), q),
    ensures
        occurs_in(t, q),
{
    let part = t.subrange(a, b);
    let i: int = choose|i: int|
        0 <= i && i + q.len() <= part.len() && #[trigger] part.subrange(i, i + q.len()) == q;
    assert(t.subrange(a + i, a + i + q.len()) =~= part.subrange(i, i + q.len()));
}

/// A pattern that occurs nowhere in a text occurs in none of its pieces.
pub proof fn lemma_pieces_avoid(s: Seq<char>, sep: Seq<char>, cur: Seq<char>, q: Seq<char>)
    requires
        sep.len() > 0,
        !occurs_in(cur + s, q),
    ensures
        forall|k: int|
            0 <= k < split_from(s, sep, cur).len() ==> !occurs_in(
                #[trigger] split_from(s, sep, cur)[k],
                q,
            ),
    decreases s.len(),
{
    let t = cur + s;
    if s.len() == 0 {
        assert(t =~= cur);
        assert(split_from(s, sep, cur) == seq![cur]);
        assert(split_from(s, sep, cur)[0] == cur);
        assert(!occurs_in(cur, q));
    } else if starts_with(s, sep) {
        let rest = s.skip(sep.len() as int);
        if occurs_in(cur, q) {
            assert(t.subrange(0, cur.len() as int) =~= cur);
            lemma_occurs_in_part(t, 0, cur.len() as int, q);
        }
        if occurs_in(Seq::<char>::empty() + rest, q) {
            assert(Seq::<char>::empty() + rest =~= t.subrange(
                (cur.len() + sep.len()) as int,
                t.len() as int,
            ));
            lemma_occurs_in_part(t, (cur.len() + sep.len()) as int, t.len() as int, q);
        }
        lemma_pieces_avoid(rest, sep, seq![], q);
        let pieces = split_from(s, sep, cur);
        assert forall|k: int| 0 <= k < pieces.len() implies !occurs_in(
            #[trigger] pieces[k],
            q,
        ) by {
            if k > 0 {
                assert(pieces[k] == split_from(rest, sep, seq![])[k - 1]);
            } else {
                assert(pieces[k] == cur);
            }
        }
    } else {
        assert(cur.push(s[0]) + s.drop_first() =~= t);
        lemma_pieces_avoid(s.drop_first(), sep, cur.push(s[0]), q);
        assert(split_from(s, sep, cur) == split_from(s.drop_first(), sep, cur.push(s[0])));
    }
}

/// No piece holds the separator it was cut at.
pub proof fn lemma_pieces_clean(s: Seq<char>, sep: Seq<char>, cur: Seq<char>)
    requires
        sep.len() > 0,
        forall|j: int| 0 <= j < cur.len() ==> !starts_with(#[trigger] cur.skip(j) + s, sep),
    ensures
        forall|k: int|
            0 <= k < split_from(s, sep, cur).len() ==> !occurs_in(
                #[trigger] split_from(s, sep, cur)[k],
                sep,
            ),
    decreases s.len(),
{
    assert(!occurs_in(cur, sep) || (s.len() > 0 && !starts_with(s, sep))) by {
        if occurs_in(cur, sep) && (s.len() == 0 || starts_with(s, sep)) {
            let i: int = choose|i: int|
                0 <= i && i + sep.len() <= cur.len() && #[trigger] cur.subrange(i, i + sep.len())
                    == sep;
            assert((cur.skip(i) + s).take(sep.len() as int) =~= cur.subrange(i, i + sep.len()));
            assert(!starts_with(cur.skip(i) + s, sep));
        }
    }
    if s.len() == 0 {
        assert(split_from(s, sep, cur) == seq![cur]);
        assert(split_from(s, sep, cur)[0] == cur);
    } else if starts_with(s, sep) {
        let rest = s.skip(sep.len() as int);
        lemma_pieces_clean(rest, sep, seq![]);
        let pieces = split_from(s, sep, cur);
        assert forall|k: int| 0 <= k < pieces.len() implies !occurs_in(
            #[trigger] pieces[k],
            sep,
        ) by {
            if k > 0 {
                assert(pieces[k] == split_from(rest, sep, seq![])[k - 1]);
            } else {
                assert(pieces[k] == cur);
            }
        }
    } else {
        let c2 = cur.push(s[0]);
        let s2 = s.drop_first();
        assert forall|j: int| 0 <= j < c2.len() implies !starts_with(#[trigger] c2.skip(j) + s2, sep) by {
            if j < cur.len() {
                assert(c2.skip(j) + s2 =~= cur.skip(j) + s);
            } else {
                assert(c2.skip(j) + s2 =~= s);
            }
        }
        lemma_pieces_clean(s2, sep, c2);
        assert(split_from(s, sep, cur) == split_from(s2, sep, c2));
    }
}

/// Joining one more piece appends the separator and the piece.
pub proof fn lemma_join_push(toks: Seq<Seq<char>>, sep: Seq<char>, t: Seq<char>)
    requires
        toks.len() >= 1,
    ensures
        join_with(toks.push(t), sep) == join_with(toks, sep) + sep + t,
    decreases toks.len(),
{
    let x = toks.push(t);
    assert(x[0] == toks[0]);
    if toks.len() == 1 {
        assert(x.drop_first() =~= seq![t]);
        assert(join_with(x.drop_first(), sep) == t);
    } else {
        assert(x.drop_first() =~= toks.drop_first().push(t));
        lemma_join_push(toks.drop_first(), sep, t);
        assert(toks[0] + sep + (join_with(toks.drop_first(), sep) + sep + t) =~= (toks[0] + sep
            + join_with(toks.drop_first(), sep)) + sep + t);
    }
}

/// The characters of `s`, in order.
pub fn chars_of(s: &str) -> (res: Vec<char>)
    ensures
        res@ == s@,
{
    let mut it = s.chars();
    let mut v: Vec<char> = Vec::new();
    loop
        invariant
            v@ + it.remaining() == s@,
            it.decrease() is Some,
        ensures
            v@ == s@,
        decreases it.decrease()->0,
    {
        match it.next() {
            Some(c) => {
                v.push(c);
            },
            None => {
                assert(v@ =~= s@);
                break ;
            },
        }
    }
    v
}

/// Whether the pattern `sep` stands in `chars` at position `i`.
fn pattern_at(chars: &Vec<char>, i: usize, sep: &Vec<char>) -> (res: bool)
    requires
        i <= chars@.len(),
        sep@.len() > 0,
    ensures
        res == starts_with(chars@.skip(i as int), sep@),
        res ==> i + sep@.len() <= chars@.len(),
{
    let n: usize = chars.len();
    let m: usize = sep.len();
    if m > n - i {
        return false;
    }
    let mut k: usize = 0;
    while k < m
        invariant
            k <= m,
            m == sep@.len(),
            n == chars@.len(),
            i + m <= n,
            forall|j: int| 0 <= j < k ==> chars@[i + j] == sep@[j],
        decreases m - k,
    {
        if chars[i + k] != sep[k] {
            assert(chars@.skip(i as int).take(m as int)[k as int] != sep@[k as int]);
            return false;
        }
        k = k + 1;
    }
    assert(chars@.skip(i as int).take(m as int) =~= sep@);
    true
}

/// The pieces of `s` between the occurrences of the non-empty pattern
/// `sep`, as `str::split` cuts them.
pub fn split_text(s: &str, sep: &Vec<char>) -> (res: Vec<String>)
    requires
        sep@.len() > 0,
    ensures
        views(res@) == split_on(s@, sep@),
{
    let chars = chars_of(s);
    let n: usize = chars.len();
    let mut res: Vec<String> = Vec::new();
    let mut start: usize = 0;
    let mut i: usize = 0;
    assert(s@.skip(0) =~= s@);
    assert(s@.subrange(0, 0) =~= Seq::<char>::empty());
    assert(views(res@) =~= Seq::<Seq<char>>::empty());
    while i < n
        invariant
            start <= i <= n,
            chars@ == s@,
            n == s@.len(),
            sep@.len() > 0,
            split_on(s@, sep@) == views(res@) + split_from(
                s@.skip(i as int),
                sep@,
                s@.subrange(start as int, i as int),
            ),
        decreases n - i,
    {
        let rest = Ghost(s@.skip(i as int));
        let cur = Ghost(s@.subrange(start as int, i as int));
        if pattern_at(&chars, i, sep) {
            let piece = String::from_str(s.substring_char(start, i));
            let ghost old_views = views(res@);
            res.push(piece);
            assert(views(res@) =~= old_views.push(cur@));
            i = i + sep.len();
            start = i;
            assert(rest@.skip(sep@.len() as int) =~= s@.skip(i as int));
            assert(s@.subrange(start as int, i as int) =~= Seq::<char>::empty());
            assert(old_views + (seq![cur@] + split_from(s@.skip(i as int), sep@, seq![]))
                =~= views(res@) + split_from(s@.skip(i as int), sep@, seq![]));
        } else {
            assert(rest@.drop_first() =~= s@.skip(i + 1));
            assert(rest@[0] == s@[i as int]);
            assert(cur@.push(s@[i as int]) =~= s@.subrange(start as int, i + 1));
            i = i + 1;
        }
    }
    let last = String::from_str(s.substring_char(start, n));
    let ghost old_views = views(res@);
    res.push(last);
    assert(views(res@) =~= old_views.push(s@.subrange(start as int, n as int)));
    assert(s@.skip(n as int) =~= Seq::<char>::empty());
    res
}

/// A received line without its line ending: the line with its last two
/// characters removed, as two calls of `String::pop` leave it.
pub fn strip_line_end(line: &String) -> (res: String)
    ensures
        res@ == drop_line_end(line@),
{
    let n: usize = line.as_str().unicode_len();
    if n >= 2 {
        String::from_str(line.as_str().substring_char(0, n - 2))
    } else {
        String::new()
    }
}

/// Whether `x` is one of the strings of `v`.
pub fn contains_text(v: &Vec<String>, x: &String) -> (res: bool)
    ensures
        res == views(v@).contains(x@),
{
    let mut i: usize = 0;
    while i < v.len()
        invariant
            i <= v@.len(),
            forall|j: int| 0 <= j < i ==> v@[j]@ != x@,
        decreases v@.len() - i,
    {
        if v[i] == *x {
            assert(views(v@)[i as int] == x@);
            return true;
        }
        i = i + 1;
    }
    assert(!views(v@).contains(x@)) by {
        if views(v@).contains(x@) {
            let j: int = choose|j: int| 0 <= j < views(v@).len() && views(v@)[j] == x@;
            assert(v@[j]@ == x@);
        }
    }
    false
}

/// A new string holding the text of `s`.
pub fn text(s: &str) -> (res: String)
    ensures
        res@ == s@,
{
    String::from_str(s)
}

} // verus!
