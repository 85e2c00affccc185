//! Durable form of the access table: a line-based text format with a verified
//! encoder and parser, and a proof that a table survives the round trip.
//!
//! The format is one `admin` line, then one `user` line per authorized
//! identity, then one `token` line per mail token. Token text is escaped so
//! that a token may contain any character, newlines included.

use crate::access::Users;
use crate::text::{
    chars_to_string, copy_range, dec_digits, i64_dec_spec, i64_to_string,
    lemma_dec_digits_no_newline, lemma_i64_round_trip, parse_i64_chars, parse_i64_spec, push_char,
    string_to_chars,
};
use vstd::prelude::*;
use vstd::string::*;

verus! {

/// Spec-level content of a persisted table, in stored order.
#[verifier::ext_equal]
pub struct StoredAccess {
    pub users: Seq<i64>,
    pub admin: i64,
    pub tokens: Seq<Seq<char>>,
}

/// The stored content of a plain-vector table.
pub open spec fn stored_of(u: Users) -> StoredAccess {
    StoredAccess {
        users: u.users@,
        admin: u.admin,
        tokens: Seq::new(u.mail_tokens@.len(), |i: int| u.mail_tokens@[i]@),
    }
}

pub open spec fn kw_admin() -> Seq<char> {
    seq!['a', 'd', 'm', 'i', 'n', ' ']
}

pub open spec fn kw_user() -> Seq<char> {
    seq!['u', 's', 'e', 'r', ' ']
}

pub open spec fn kw_token() -> Seq<char> {
    seq!['t', 'o', 'k', 'e', 'n', ' ']
}

/// How one token character is written out: backslash and newline are escaped,
/// every other character stands for itself.
pub open spec fn escape_char(c: char) -> Seq<char> {
    if c == '\\' {
        seq!['\\', '\\']
    } else if c == '\n' {
        seq!['\\', 'n']
    } else {
        seq![c]
    }
}

/// A token written out, character by character.
pub open spec fn escape_spec(s: Seq<char>) -> Seq<char>
    decreases s.len(),
{
    if s.len() == 0 {
        Seq::<char>::empty()
    } else {
        escape_char(s[0]) + escape_spec(s.drop_first())
    }
}

/// Reading an escaped token back; `None` on a malformed escape.
pub open spec fn unescape_spec(s: Seq<char>) -> Option<Seq<char>>
    decreases s.len(),
{
    if s.len() == 0 {
        Some(Seq::<char>::empty())
    } else if s[0] == '\\' {
        if s.len() >= 2 && (s[1] == '\\' || s[1] == 'n') {
            let c = if s[1] == '\\' {
                '\\'
            } else {
                '\n'
            };
            match unescape_spec(s.skip(2)) {
                Some(r) => Some(seq![c] + r),
                None => None,
            }
        } else {
            None
        }
    } else {
        match unescape_spec(s.drop_first()) {
            Some(r) => Some(seq![s[0]] + r),
            None => None,
        }
    }
}

pub open spec fn no_newline(s: Seq<char>) -> bool {
    forall|i: int| 0 <= i < s.len() ==> #[trigger] s[i] != '\n'
}

/// Escaping commutes with concatenation.
proof fn lemma_escape_append(a: Seq<char>, b: Seq<char>)
    ensures
        escape_spec(a + b) == escape_spec(a) + escape_spec(b),
    decreases a.len(),
{
    if a.len() == 0 {
        assert(a + b =~= b);
        assert(escape_spec(a) + escape_spec(b) =~= escape_spec(b));
    } else {
        lemma_escape_append(a.drop_first(), b);
        assert((a + b).drop_first() =~= a.drop_first() + b);
        assert(escape_char((a + b)[0]) + (escape_spec(a.drop_first()) + escape_spec(b))
            =~= (escape_char(a[0]) + escape_spec(a.drop_first())) + escape_spec(b));
    }
}

/// An escaped token contains no raw newline, and unescaping it restores the
/// token exactly.
pub proof fn lemma_escape_round_trip(s: Seq<char>)
    ensures
        no_newline(escape_spec(s)),
        unescape_spec(escape_spec(s)) == Some(s),
    decreases s.len(),
{
    if s.len() == 0 {
    } else {
        lemma_escape_round_trip(s.drop_first());
        let e = escape_spec(s);
        let c = s[0];
        assert(e =~= escape_char(c) + escape_spec(s.drop_first()));
        if c == '\\' || c == '\n' {
            assert(e[0] == '\\');
            assert(e.len() >= 2);
            assert(e.skip(2) =~= escape_spec(s.drop_first()));
            assert(seq![c] + s.drop_first() =~= s);
        } else {
            assert(e[0] == c);
            assert(e.drop_first() =~= escape_spec(s.drop_first()));
            assert(seq![c] + s.drop_first() =~= s);
        }
    }
}

/// The first line of a text and the remainder after its newline.
pub open spec fn line_split(s: Seq<char>) -> Option<(Seq<char>, Seq<char>)>
    decreases s.len(),
{
    if s.len() == 0 {
        None
    } else if s[0] == '\n' {
        Some((Seq::<char>::empty(), s.drop_first()))
    } else {
        match line_split(s.drop_first()) {
            None => None,
            Some(p) => Some((seq![s[0]] + p.0, p.1)),
        }
    }
}

/// What a successful line split guarantees: the line is newline-free and
/// strictly shorter than the text, and the text is line + newline + rest.
pub proof fn lemma_line_split_props(s: Seq<char>)
    ensures
        match line_split(s) {
            Some(p) => no_newline(p.0) && p.1.len() < s.len() && s == p.0 + seq!['\n'] + p.1,
            None => no_newline(s),
        },
    decreases s.len(),
{
    if s.len() == 0 {
    } else if s[0] == '\n' {
        let p = line_split(s).unwrap();
        assert(s =~= p.0 + seq!['\n'] + p.1);
    } else {
        lemma_line_split_props(s.drop_first());
        match line_split(s.drop_first()) {
            None => {
                assert forall|i: int| 0 <= i < s.len() implies #[trigger] s[i] != '\n' by {
                    if i > 0 {
                        assert(s[i] == s.drop_first()[i - 1]);
                    }
                }
            },
            Some(q) => {
                let p = line_split(s).unwrap();
                assert(p.0 == seq![s[0]] + q.0);
                assert forall|i: int| 0 <= i < p.0.len() implies #[trigger] p.0[i] != '\n' by {
                    if i > 0 {
                        assert(p.0[i] == q.0[i - 1]);
                    }
                }
                assert(s.drop_first() == q.0 + seq!['\n'] + q.1);
                assert(s =~= seq![s[0]] + s.drop_first());
                assert(seq![s[0]] + (q.0 + seq!['\n'] + q.1) =~= (seq![s[0]] + q.0) + seq!['\n']
                    + q.1);
            },
        }
    }
}

/// Splitting a text assembled from a newline-free line recovers the parts.
pub proof fn lemma_line_split_concat(l: Seq<char>, r: Seq<char>)
    requires
        no_newline(l),
    ensures
        line_split(l + seq!['\n'] + r) == Some((l, r)),
    decreases l.len(),
{
    let s = l + seq!['\n'] + r;
    if l.len() == 0 {
        assert(s[0] == '\n');
        assert(s.drop_first() =~= r);
        assert(line_split(s).unwrap().0 =~= l);
    } else {
        assert(forall|i: int| 0 <= i < l.drop_first().len() ==> #[trigger] l.drop_first()[i]
            != '\n');
        lemma_line_split_concat(l.drop_first(), r);
        assert(s[0] == l[0]);
        assert(s[0] != '\n');
        assert(s.drop_first() =~= l.drop_first() + seq!['\n'] + r);
        assert(seq![s[0]] + l.drop_first() =~= l);
    }
}

/// Whether `s` begins with `p`.
pub open spec fn starts_with(s: Seq<char>, p: Seq<char>) -> bool {
    s.len() >= p.len() && s.subrange(0, p.len() as int) == p
}

/// Reads the member lines after the admin line. `token_seen` says whether a
/// token line has already been read; user lines may not follow one.
pub open spec fn parse_members(s: Seq<char>, token_seen: bool) -> Option<(Seq<i64>, Seq<Seq<char>>)>
    decreases s.len(),
    via parse_members_decreases
{
    if s.len() == 0 {
        Some((Seq::<i64>::empty(), Seq::<Seq<char>>::empty()))
    } else {
        match line_split(s) {
            None => None,
            Some(p) => {
                let (l, rest) = p;
                if starts_with(l, kw_user()) && !token_seen {
                    match parse_i64_spec(l.skip(5)) {
                        None => None,
                        Some(u) => match parse_members(rest, false) {
                            None => None,
                            Some(m) => Some((seq![u] + m.0, m.1)),
                        },
                    }
                } else if starts_with(l, kw_token()) {
                    match unescape_spec(l.skip(6)) {
                        None => None,
                        Some(t) => match parse_members(rest, true) {
                            None => None,
                            Some(m) => if m.0.len() == 0 {
                                Some((m.0, seq![t] + m.1))
                            } else {
                                None
                            },
                        },
                    }
                } else {
                    None
                }
            },
        }
    }
}

#[via_fn]
proof fn parse_members_decreases(s: Seq<char>, token_seen: bool) {
    lemma_line_split_props(s);
}

/// Reads a whole stored table: admin line, then member lines.
pub open spec fn parse_store_spec(s: Seq<char>) -> Option<StoredAccess> {
    match line_split(s) {
        None => None,
        Some(p) => {
            let (l, rest) = p;
            if starts_with(l, kw_admin()) {
                match parse_i64_spec(l.skip(6)) {
                    None => None,
                    Some(a) => match parse_members(rest, false) {
                        None => None,
                        Some(m) => Some(StoredAccess { users: m.0, admin: a, tokens: m.1 }),
                    },
                }
            } else {
                None
            }
        },
    }
}

/// The admin line of a stored table.
pub open spec fn admin_line(a: i64) -> Seq<char> {
    kw_admin() + i64_dec_spec(a as int) + seq!['\n']
}

/// The user lines, one per identity, in order.
pub open spec fn user_lines(us: Seq<i64>) -> Seq<char>
    decreases us.len(),
{
    if us.len() == 0 {
        Seq::<char>::empty()
    } else {
        kw_user() + i64_dec_spec(us[0] as int) + seq!['\n'] + user_lines(us.drop_first())
    }
}

/// The token lines, one per token, in order.
pub open spec fn token_lines(ts: Seq<Seq<char>>) -> Seq<char>
    decreases ts.len(),
{
    if ts.len() == 0 {
        Seq::<char>::empty()
    } else {
        kw_token() + escape_spec(ts[0]) + seq!['\n'] + token_lines(ts.drop_first())
    }
}

/// The whole stored text of a table.
pub open spec fn encode_store_spec(d: StoredAccess) -> Seq<char> {
    admin_line(d.admin) + user_lines(d.users) + token_lines(d.tokens)
}

proof fn lemma_user_lines_append(a: Seq<i64>, b: Seq<i64>)
    ensures
        user_lines(a + b) == user_lines(a) + user_lines(b),
    decreases a.len(),
{
    if a.len() == 0 {
        assert(a + b =~= b);
        assert(user_lines(a) + user_lines(b) =~= user_lines(b));
    } else {
        lemma_user_lines_append(a.drop_first(), b);
        assert((a + b).drop_first() =~= a.drop_first() + b);
        assert((a + b)[0] == a[0]);
        assert(kw_user() + i64_dec_spec(a[0] as int) + seq!['\n'] + (user_lines(a.drop_first())
            + user_lines(b)) =~= (kw_user() + i64_dec_spec(a[0] as int) + seq!['\n'] + user_lines(
            a.drop_first(),
        )) + user_lines(b));
    }
}

proof fn lemma_token_lines_append(a: Seq<Seq<char>>, b: Seq<Seq<char>>)
    ensures
        token_lines(a + b) == token_lines(a) + token_lines(b),
    decreases a.len(),
{
    if a.len() == 0 {
        assert(a + b =~= b);
        assert(token_lines(a) + token_lines(b) =~= token_lines(b));
    } else {
        lemma_token_lines_append(a.drop_first(), b);
        assert((a + b).drop_first() =~= a.drop_first() + b);
        assert((a + b)[0] == a[0]);
        assert(kw_token() + escape_spec(a[0]) + seq!['\n'] + (token_lines(a.drop_first())
            + token_lines(b)) =~= (kw_token() + escape_spec(a[0]) + seq!['\n'] + token_lines(
            a.drop_first(),
        )) + token_lines(b));
    }
}

/// A decimal number contains no newline.
proof fn lemma_i64_dec_no_newline(n: i64)
    ensures
        no_newline(i64_dec_spec(n as int)),
{
    if n >= 0 {
        lemma_dec_digits_no_newline(n as nat);
    } else {
        lemma_dec_digits_no_newline((-(n as int)) as nat);
        let s = i64_dec_spec(n as int);
        assert forall|i: int| 0 <= i < s.len() implies #[trigger] s[i] != '\n' by {
            if i > 0 {
                assert(s[i] == dec_digits((-(n as int)) as nat)[i - 1]);
            }
        }
    }
}

/// Token lines parse back to exactly the tokens, whatever the flag.
proof fn lemma_token_lines_round_trip(ts: Seq<Seq<char>>, token_seen: bool)
    ensures
        parse_members(token_lines(ts), token_seen) == Some(
            (Seq::<i64>::empty(), ts),
        ),
    decreases ts.len(),
{
    if ts.len() == 0 {
    } else {
        lemma_token_lines_round_trip(ts.drop_first(), true);
        let t = ts[0];
        lemma_escape_round_trip(t);
        let l = kw_token() + escape_spec(t);
        let rest = token_lines(ts.drop_first());
        assert(no_newline(l)) by {
            assert forall|i: int| 0 <= i < l.len() implies #[trigger] l[i] != '\n' by {
                if i >= 6 {
                    assert(l[i] == escape_spec(t)[i - 6]);
                }
            }
        }
        assert(token_lines(ts) =~= l + seq!['\n'] + rest);
        lemma_line_split_concat(l, rest);
        assert(starts_with(l, kw_token())) by {
            assert(l.subrange(0, 6) =~= kw_token());
        }
        assert(!starts_with(l, kw_user())) by {
            if starts_with(l, kw_user()) {
                assert(l.subrange(0, 5)[0] == 'u');
                assert(l[0] == 't');
            }
        }
        assert(l.skip(6) =~= escape_spec(t));
        assert(seq![t] + ts.drop_first() =~= ts);
    }
}

/// User lines followed by token lines parse back to exactly both lists.
proof fn lemma_member_lines_round_trip(us: Seq<i64>, ts: Seq<Seq<char>>)
    ensures
        parse_members(user_lines(us) + token_lines(ts), false) == Some((us, ts)),
    decreases us.len(),
{
    if us.len() == 0 {
        assert(user_lines(us) + token_lines(ts) =~= token_lines(ts));
        lemma_token_lines_round_trip(ts, false);
    } else {
        lemma_member_lines_round_trip(us.drop_first(), ts);
        let u = us[0];
        lemma_i64_round_trip(u);
        lemma_i64_dec_no_newline(u);
        let l = kw_user() + i64_dec_spec(u as int);
        let rest = user_lines(us.drop_first()) + token_lines(ts);
        assert(no_newline(l)) by {
            assert forall|i: int| 0 <= i < l.len() implies #[trigger] l[i] != '\n' by {
                if i >= 5 {
                    assert(l[i] == i64_dec_spec(u as int)[i - 5]);
                }
            }
        }
        assert(user_lines(us) + token_lines(ts) =~= l + seq!['\n'] + rest);
        lemma_line_split_concat(l, rest);
        assert(starts_with(l, kw_user())) by {
            assert(l.subrange(0, 5) =~= kw_user());
        }
        assert(l.skip(5) =~= i64_dec_spec(u as int));
        assert(seq![u] + us.drop_first() =~= us);
    }
}

/// A stored table read back is the same table: members, order and
/// administrator all survive the persistence round trip.
pub proof fn lemma_store_round_trip(d: StoredAccess)
    ensures
        parse_store_spec(encode_store_spec(d)) == Some(d),
{
    lemma_i64_round_trip(d.admin);
    lemma_i64_dec_no_newline(d.admin);
    let l = kw_admin() + i64_dec_spec(d.admin as int);
    let rest = user_lines(d.users) + token_lines(d.tokens);
    assert(no_newline(l)) by {
        assert forall|i: int| 0 <= i < l.len() implies #[trigger] l[i] != '\n' by {
            if i >= 6 {
                assert(l[i] == i64_dec_spec(d.admin as int)[i - 6]);
            }
        }
    }
    assert(encode_store_spec(d) =~= l + seq!['\n'] + rest);
    lemma_line_split_concat(l, rest);
    assert(starts_with(l, kw_admin())) by {
        assert(l.subrange(0, 6) =~= kw_admin());
    }
    assert(l.skip(6) =~= i64_dec_spec(d.admin as int));
    lemma_member_lines_round_trip(d.users, d.tokens);
}

/// Escapes token characters, as `escape_spec` says.
fn escape_chars(v: &Vec<char>) -> (r: Vec<char>)
    ensures
        r@ == escape_spec(v@),
{
    let n: usize = v.len();
    let mut r: Vec<char> = Vec::new();
    let mut i: usize = 0;
    proof {
        assert(v@.subrange(0, 0) =~= Seq::<char>::empty());
    }
    while i < n
        invariant
            0 <= i <= n,
            n == v@.len(),
            r@ == escape_spec(v@.subrange(0, i as int)),
        decreases n - i,
    {
        let c = v[i];
        if c == '\\' {
            r.push('\\');
            r.push('\\');
        } else if c == '\n' {
            r.push('\\');
            r.push('n');
        } else {
            r.push(c);
        }
        proof {
            let pre = v@.subrange(0, i as int);
            let post = v@.subrange(0, i + 1);
            assert(post =~= pre + seq![v@[i as int]]);
            lemma_escape_append(pre, seq![v@[i as int]]);
            let one = seq![v@[i as int]];
            assert(one.drop_first() =~= Seq::<char>::empty());
            assert(escape_spec(one.drop_first()) == Seq::<char>::empty());
            assert(escape_spec(one) == escape_char(one[0]) + escape_spec(one.drop_first()));
            assert(escape_spec(one) =~= escape_char(v@[i as int]));
            assert(r@ =~= escape_spec(pre) + escape_char(v@[i as int]));
        }
        i = i + 1;
    }
    proof {
        assert(v@.subrange(0, n as int) =~= v@);
    }
    r
}

/// Unescapes token characters, exactly as `unescape_spec` says.
fn unescape_chars(v: &Vec<char>) -> (r: Option<Vec<char>>)
    ensures
        match r {
            Some(w) => unescape_spec(v@) == Some(w@),
            None => unescape_spec(v@) is None,
        },
{
    let n: usize = v.len();
    let mut acc: Vec<char> = Vec::new();
    let mut i: usize = 0;
    proof {
        assert(v@.subrange(0, n as int) =~= v@);
        match unescape_spec(v@) {
            Some(rest) => {
                assert(acc@ + rest =~= rest);
            },
            None => {},
        }
    }
    while i < n
        invariant
            0 <= i <= n,
            n == v@.len(),
            match unescape_spec(v@.subrange(i as int, n as int)) {
                Some(rest) => unescape_spec(v@) == Some(acc@ + rest),
                None => unescape_spec(v@) is None,
            },
        decreases n - i,
    {
        let ghost suf = v@.subrange(i as int, n as int);
        let c = v[i];
        proof {
            assert(suf[0] == v@[i as int]);
        }
        if c == '\\' {
            if i + 1 >= n {
                proof {
                    assert(suf.len() < 2);
                    assert(unescape_spec(suf) is None);
                }
                return None;
            }
            let e = v[i + 1];
            proof {
                assert(suf[1] == v@[i + 1]);
            }
            if e == '\\' {
                acc.push('\\');
            } else if e == 'n' {
                acc.push('\n');
            } else {
                proof {
                    assert(unescape_spec(suf) is None);
                }
                return None;
            }
            proof {
                assert(suf.skip(2) =~= v@.subrange(i + 2, n as int));
                let d: char = if e == '\\' {
                    '\\'
                } else {
                    '\n'
                };
                match unescape_spec(v@.subrange(i + 2, n as int)) {
                    Some(rest) => {
                        assert(unescape_spec(suf) == Some(seq![d] + rest));
                        assert(acc@ + rest =~= old_acc_plus(acc@, d, rest));
                    },
                    None => {},
                }
            }
            i = i + 2;
        } else {
            acc.push(c);
            proof {
                assert(suf.drop_first() =~= v@.subrange(i + 1, n as int));
                match unescape_spec(v@.subrange(i + 1, n as int)) {
                    Some(rest) => {
                        assert(unescape_spec(suf) == Some(seq![c] + rest));
                        assert(acc@ + rest =~= old_acc_plus(acc@, c, rest));
                    },
                    None => {},
                }
            }
            i = i + 1;
        }
    }
    proof {
        assert(v@.subrange(i as int, n as int).len() == 0);
        assert(unescape_spec(v@.subrange(i as int, n as int)) == Some(Seq::<char>::empty()));
        assert(acc@ + Seq::<char>::empty() =~= acc@);
    }
    Some(acc)
}

/// The accumulator before this step, extended by the decoded character and
/// the decoded remainder: the shape the loop invariant compares against.
spec fn old_acc_plus(acc_after: Seq<char>, c: char, rest: Seq<char>) -> Seq<char> {
    acc_after.drop_last() + (seq![c] + rest)
}

/// Writes the table out in its durable text form.
pub fn encode_store(u: &Users) -> (r: String)
    ensures
        r@ == encode_store_spec(stored_of(*u)),
{
    let ghost d = stored_of(*u);
    let mut s = String::new();
    s.append("admin ");
    proof {
        reveal_strlit("admin ");
        assert("admin "@ =~= kw_admin());
    }
    let a = i64_to_string(u.admin);
    s.append(a.as_str());
    push_char(&mut s, '\n');
    proof {
        assert(s@ =~= admin_line(u.admin));
    }
    let nu: usize = u.users.len();
    let mut i: usize = 0;
    proof {
        assert(user_lines(u.users@.subrange(0, 0)) =~= Seq::<char>::empty());
        assert(s@ =~= admin_line(d.admin) + user_lines(u.users@.subrange(0, 0)));
    }
    while i < nu
        invariant
            0 <= i <= nu,
            nu == u.users@.len(),
            d == stored_of(*u),
            s@ == admin_line(d.admin) + user_lines(u.users@.subrange(0, i as int)),
        decreases nu - i,
    {
        s.append("user ");
        proof {
            reveal_strlit("user ");
            assert("user "@ =~= kw_user());
        }
        let x = i64_to_string(u.users[i]);
        s.append(x.as_str());
        push_char(&mut s, '\n');
        proof {
            let pre = u.users@.subrange(0, i as int);
            let post = u.users@.subrange(0, i + 1);
            assert(post =~= pre + seq![u.users@[i as int]]);
            lemma_user_lines_append(pre, seq![u.users@[i as int]]);
            let one = seq![u.users@[i as int]];
            assert(one.drop_first() =~= Seq::<i64>::empty());
            assert(user_lines(one.drop_first()) == Seq::<char>::empty());
            assert(one.len() == 1);
            assert(user_lines(one) == kw_user() + i64_dec_spec(one[0] as int) + seq!['\n']
                + user_lines(one.drop_first()));
            assert(user_lines(one) =~= kw_user() + i64_dec_spec(u.users@[i as int] as int)
                + seq!['\n']);
            assert(s@ =~= admin_line(d.admin) + user_lines(post));
        }
        i = i + 1;
    }
    proof {
        assert(u.users@.subrange(0, nu as int) =~= u.users@);
    }
    let nt: usize = u.mail_tokens.len();
    let mut j: usize = 0;
    proof {
        assert(token_lines(d.tokens.subrange(0, 0)) =~= Seq::<char>::empty());
        assert(s@ =~= admin_line(d.admin) + user_lines(d.users) + token_lines(
            d.tokens.subrange(0, 0),
        ));
    }
    while j < nt
        invariant
            0 <= j <= nt,
            nt == u.mail_tokens@.len(),
            d == stored_of(*u),
            nt == d.tokens.len(),
            s@ == admin_line(d.admin) + user_lines(d.users) + token_lines(
                d.tokens.subrange(0, j as int),
            ),
        decreases nt - j,
    {
        s.append("token ");
        proof {
            reveal_strlit("token ");
            assert("token "@ =~= kw_token());
        }
        let tv = string_to_chars(u.mail_tokens[j].as_str());
        let ev = escape_chars(&tv);
        let es = chars_to_string(&ev);
        s.append(es.as_str());
        push_char(&mut s, '\n');
        proof {
            let pre = d.tokens.subrange(0, j as int);
            let post = d.tokens.subrange(0, j + 1);
            assert(post =~= pre + seq![d.tokens[j as int]]);
            lemma_token_lines_append(pre, seq![d.tokens[j as int]]);
            let one = seq![d.tokens[j as int]];
            assert(one.drop_first() =~= Seq::<Seq<char>>::empty());
            assert(token_lines(one.drop_first()) == Seq::<char>::empty());
            assert(one.len() == 1);
            assert(token_lines(one) == kw_token() + escape_spec(one[0]) + seq!['\n']
                + token_lines(one.drop_first()));
            assert(token_lines(one) =~= kw_token() + escape_spec(d.tokens[j as int])
                + seq!['\n']);
            assert(tv@ == d.tokens[j as int]);
            assert(s@ =~= admin_line(d.admin) + user_lines(d.users) + token_lines(post));
        }
        j = j + 1;
    }
    proof {
        assert(d.tokens.subrange(0, nt as int) =~= d.tokens);
        assert(s@ =~= encode_store_spec(d));
    }
    s
}

/// A text without newlines has no line to split off.
proof fn lemma_line_split_none(s: Seq<char>)
    requires
        no_newline(s),
    ensures
        line_split(s) is None,
    decreases s.len(),
{
    if s.len() == 0 {
    } else {
        assert(s[0] != '\n');
        assert(forall|i: int| 0 <= i < s.drop_first().len() ==> #[trigger] s.drop_first()[i]
            != '\n');
        lemma_line_split_none(s.drop_first());
    }
}

/// Splitting at the first newline yields the pieces around it.
proof fn lemma_line_split_index(s: Seq<char>, k: int)
    requires
        0 <= k < s.len(),
        s[k] == '\n',
        forall|j: int| 0 <= j < k ==> #[trigger] s[j] != '\n',
    ensures
        line_split(s) == Some((s.subrange(0, k), s.subrange(k + 1, s.len() as int))),
    decreases k,
{
    if k == 0 {
        assert(s.subrange(0, 0) =~= Seq::<char>::empty());
        assert(s.subrange(1, s.len() as int) =~= s.drop_first());
    } else {
        let t = s.drop_first();
        assert(t[k - 1] == '\n');
        assert forall|j: int| 0 <= j < k - 1 implies #[trigger] t[j] != '\n' by {
            assert(t[j] == s[j + 1]);
        }
        lemma_line_split_index(t, k - 1);
        assert(s[0] != '\n');
        assert(seq![s[0]] + t.subrange(0, k - 1) =~= s.subrange(0, k));
        assert(t.subrange(k, t.len() as int) =~= s.subrange(k + 1, s.len() as int));
    }
}

/// Once a token line has been read, no later line may add a user.
proof fn lemma_parse_members_flag(s: Seq<char>)
    ensures
        match parse_members(s, true) {
            Some(m) => m.0.len() == 0,
            None => true,
        },
    decreases s.len(),
{
    if s.len() == 0 {
    } else {
        lemma_line_split_props(s);
        match line_split(s) {
            None => {},
            Some(p) => {
                lemma_parse_members_flag(p.1);
            },
        }
    }
}

/// First newline at or after `start`, if any.
fn find_newline(v: &Vec<char>, start: usize) -> (r: Option<usize>)
    requires
        start <= v@.len(),
    ensures
        match r {
            Some(k) => start <= k < v@.len() && v@[k as int] == '\n' && forall|j: int|
                start <= j < k ==> #[trigger] v@[j] != '\n',
            None => forall|j: int| start <= j < v@.len() ==> #[trigger] v@[j] != '\n',
        },
{
    let n: usize = v.len();
    let mut i: usize = start;
    while i < n
        invariant
            start <= i <= n,
            n == v@.len(),
            forall|j: int| start <= j < i ==> #[trigger] v@[j] != '\n',
        decreases n - i,
    {
        if v[i] == '\n' {
            return Some(i);
        }
        i = i + 1;
    }
    None
}

/// Whether the line begins with the `admin ` keyword.
fn has_admin_prefix(line: &Vec<char>) -> (r: bool)
    ensures
        r == starts_with(line@, kw_admin()),
{
    let ok = line.len() >= 6 && line[0] == 'a' && line[1] == 'd' && line[2] == 'm' && line[3]
        == 'i' && line[4] == 'n' && line[5] == ' ';
    proof {
        if ok {
            assert(line@.subrange(0, 6) =~= kw_admin());
        } else if starts_with(line@, kw_admin()) {
            assert(line@[0] == kw_admin()[0]);
            assert(line@[1] == kw_admin()[1]);
            assert(line@[2] == kw_admin()[2]);
            assert(line@[3] == kw_admin()[3]);
            assert(line@[4] == kw_admin()[4]);
            assert(line@[5] == kw_admin()[5]);
        }
    }
    ok
}

/// Whether the line begins with the `user ` keyword.
fn has_user_prefix(line: &Vec<char>) -> (r: bool)
    ensures
        r == starts_with(line@, kw_user()),
{
    let ok = line.len() >= 5 && line[0] == 'u' && line[1] == 's' && line[2] == 'e' && line[3]
        == 'r' && line[4] == ' ';
    proof {
        if ok {
            assert(line@.subrange(0, 5) =~= kw_user());
        } else if starts_with(line@, kw_user()) {
            assert(line@[0] == kw_user()[0]);
            assert(line@[1] == kw_user()[1]);
            assert(line@[2] == kw_user()[2]);
            assert(line@[3] == kw_user()[3]);
            assert(line@[4] == kw_user()[4]);
        }
    }
    ok
}

/// Whether the line begins with the `token ` keyword.
fn has_token_prefix(line: &Vec<char>) -> (r: bool)
    ensures
        r == starts_with(line@, kw_token()),
{
    let ok = line.len() >= 6 && line[0] == 't' && line[1] == 'o' && line[2] == 'k' && line[3]
        == 'e' && line[4] == 'n' && line[5] == ' ';
    proof {
        if ok {
            assert(line@.subrange(0, 6) =~= kw_token());
        } else if starts_with(line@, kw_token()) {
            assert(line@[0] == kw_token()[0]);
            assert(line@[1] == kw_token()[1]);
            assert(line@[2] == kw_token()[2]);
            assert(line@[3] == kw_token()[3]);
            assert(line@[4] == kw_token()[4]);
            assert(line@[5] == kw_token()[5]);
        }
    }
    ok
}

/// Reads a stored table back, exactly as `parse_store_spec` says.
pub fn parse_store(s: &str) -> (r: Option<Users>)
    ensures
        match r {
            Some(u) => parse_store_spec(s@) == Some(stored_of(u)),
            None => parse_store_spec(s@) is None,
        },
{
    let v = string_to_chars(s);
    let n: usize = v.len();
    let k0 = match find_newline(&v, 0) {
        Some(k) => k,
        None => {
            proof {
                lemma_line_split_none(v@);
            }
            return None;
        },
    };
    proof {
        lemma_line_split_index(v@, k0 as int);
    }
    let line0 = copy_range(&v, 0, k0);
    if !has_admin_prefix(&line0) {
        return None;
    }
    let num0 = copy_range(&v, 6, k0);
    proof {
        assert(line0@.skip(6) =~= v@.subrange(6, k0 as int));
    }
    let admin: i64 = match parse_i64_chars(&num0) {
        Some(a) => a,
        None => {
            return None;
        },
    };
    let mut users_acc: Vec<i64> = Vec::new();
    let mut tokens_acc: Vec<String> = Vec::new();
    let mut token_seen = false;
    let mut pos: usize = k0 + 1;
    let ghost whole = v@.subrange(k0 + 1, n as int);
    proof {
        assert(v@.subrange(pos as int, n as int) =~= whole);
    }
    loop
        invariant
            v@ == s@,
            k0 < pos <= n,
            n == v@.len(),
            whole == v@.subrange(k0 + 1, n as int),
            line_split(v@) == Some((v@.subrange(0, k0 as int), whole)),
            starts_with(v@.subrange(0, k0 as int), kw_admin()),
            parse_i64_spec(v@.subrange(0, k0 as int).skip(6)) == Some(admin),
            tokens_acc@.len() == tokens_view(tokens_acc@).len(),
            match parse_members(v@.subrange(pos as int, n as int), token_seen) {
                Some(m) => parse_members(whole, false) == Some(
                    ((users_acc@ + m.0), (tokens_view(tokens_acc@) + m.1)),
                ),
                None => parse_members(whole, false) is None,
            },
        decreases n - pos,
    {
        let ghost suf = v@.subrange(pos as int, n as int);
        if pos == n {
            proof {
                assert(suf.len() == 0);
                assert(users_acc@ + Seq::<i64>::empty() =~= users_acc@);
                assert(tokens_view(tokens_acc@) + Seq::<Seq<char>>::empty() =~= tokens_view(
                    tokens_acc@,
                ));
            }
            let u = Users { users: users_acc, admin, mail_tokens: tokens_acc };
            proof {
                assert(stored_of(u).tokens =~= tokens_view(u.mail_tokens@));
                assert(parse_store_spec(v@) == Some(stored_of(u)));
            }
            return Some(u);
        }
        let k = match find_newline(&v, pos) {
            Some(k) => k,
            None => {
                proof {
                    assert(forall|j: int| 0 <= j < suf.len() ==> #[trigger] suf[j] != '\n');
                    lemma_line_split_none(suf);
                    assert(parse_members(suf, token_seen) is None);
                }
                return None;
            },
        };
        let ghost l = v@.subrange(pos as int, k as int);
        let ghost rest = v@.subrange(k + 1, n as int);
        proof {
            assert(suf[k - pos] == v@[k as int]);
            assert forall|j: int| 0 <= j < k - pos implies #[trigger] suf[j] != '\n' by {
                assert(suf[j] == v@[j + pos]);
            }
            lemma_line_split_index(suf, k - pos);
            assert(suf.subrange(0, k - pos) =~= l);
            assert(suf.subrange(k - pos + 1, suf.len() as int) =~= rest);
        }
        let line = copy_range(&v, pos, k);
        if has_user_prefix(&line) && !token_seen {
            let numv = copy_range(&v, pos + 5, k);
            proof {
                assert(l.skip(5) =~= v@.subrange(pos + 5, k as int));
            }
            match parse_i64_chars(&numv) {
                Some(uid) => {
                    proof {
                        match parse_members(rest, false) {
                            Some(m2) => {
                                assert(parse_members(suf, token_seen) == Some(
                                    ((seq![uid] + m2.0), m2.1),
                                ));
                                assert(users_acc@ + (seq![uid] + m2.0) =~= users_acc@.push(uid)
                                    + m2.0);
                            },
                            None => {},
                        }
                    }
                    users_acc.push(uid);
                    pos = k + 1;
                },
                None => {
                    proof {
                        assert(parse_members(suf, token_seen) is None);
                    }
                    return None;
                },
            }
        } else if has_token_prefix(&line) {
            let escv = copy_range(&v, pos + 6, k);
            proof {
                assert(l.skip(6) =~= v@.subrange(pos + 6, k as int));
            }
            match unescape_chars(&escv) {
                Some(tchars) => {
                    let tok = chars_to_string(&tchars);
                    proof {
                        lemma_parse_members_flag(rest);
                        match parse_members(rest, true) {
                            Some(m2) => {
                                assert(m2.0.len() == 0);
                                assert(parse_members(suf, token_seen) == Some(
                                    (m2.0, seq![tchars@] + m2.1),
                                ));
                                assert(tokens_view(tokens_acc@.push(tok)) =~= tokens_view(
                                    tokens_acc@,
                                ).push(tchars@));
                                assert(tokens_view(tokens_acc@) + (seq![tchars@] + m2.1)
                                    =~= tokens_view(tokens_acc@).push(tchars@) + m2.1);
                                assert(users_acc@ + m2.0 =~= users_acc@);
                            },
                            None => {},
                        }
                    }
                    tokens_acc.push(tok);
                    token_seen = true;
                    pos = k + 1;
                    proof {
                        match parse_members(v@.subrange(pos as int, n as int), true) {
                            Some(m) => {
                                lemma_parse_members_flag(v@.subrange(pos as int, n as int));
                                assert(users_acc@ + m.0 =~= users_acc@);
                            },
                            None => {},
                        }
                    }
                },
                None => {
                    proof {
                        assert(parse_members(suf, token_seen) is None);
                    }
                    return None;
                },
            }
        } else {
            proof {
                assert(parse_members(suf, token_seen) is None);
            }
            return None;
        }
    }
}

/// The views of a vector of token strings.
pub open spec fn tokens_view(ts: Seq<String>) -> Seq<Seq<char>> {
    Seq::new(ts.len(), |i: int| ts[i]@)
}

/// Writing a table out and reading it back never fails and loses no
/// membership: the authorized identities, the administrator and the mail
/// tokens are exactly those stored. With `add_user`'s and `check_user`'s
/// contracts this says an added user stays authorized across a restart that
/// reloads from durable storage, until removed.
pub proof fn lemma_reload_preserves_access(d: StoredAccess)
    ensures
        match parse_store_spec(encode_store_spec(d)) {
            Some(d2) => d2.users.to_set() == d.users.to_set() && d2.admin == d.admin
                && d2.tokens.to_set() == d.tokens.to_set(),
            None => false,
        },
{
    lemma_store_round_trip(d);
}

} // verus!
