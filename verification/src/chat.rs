//! The chat channel's decision logic. Each command handler resolves the
//! acting identity, authorizes it against the access table, and decides the
//! reply and the outward action; the transport and the printing subsystem run
//! outside the library and feed their outcomes back in.

use crate::access::{AccessView, UsersTable};
use crate::hash::{generate_token, hex_of, sha1_of};
use crate::text::{
    first_token, first_token_chars, i64_dec_spec, i64_to_string, parse_i64_chars, parse_i64_spec,
    string_to_chars,
};
use vstd::prelude::*;
use vstd::string::*;
use vstd::utf8::encode_utf8;

verus! {

/// The acting identity behind an inbound chat message.
#[derive(Debug)]
pub struct ChatUser {
    pub id: i64,
    pub first_name: String,
    pub last_name: Option<String>,
    pub username: Option<String>,
}

/// An inbound chat message, reduced to what the decisions read: who sent it,
/// its text, and the transport handle of an attached document.
#[derive(Debug)]
pub struct IncomingMessage {
    pub from: Option<ChatUser>,
    pub text: Option<String>,
    pub document: Option<String>,
}

/// A message to send back over the chat transport.
#[derive(Debug)]
pub struct Reply {
    pub to: i64,
    pub text: String,
}

/// What a command handler decided: reply at once, or perform one outward
/// action first and report its outcome with the matching report function.
#[derive(Debug)]
pub enum CmdEffect {
    Reply(Reply),
    PersistThenReport { reply_to: i64 },
    PrintThenReport { filename: String, reply_to: i64 },
    ListFilesThenReport { reply_to: i64 },
    LpstatThenReport { reply_to: i64 },
    CancelThenReport { job: String, reply_to: i64 },
    DeleteThenReport { filename: String, reply_to: i64 },
    SendDocumentThenReport { filename: String, reply_to: i64 },
}

/// What the implicit-submission handler decided for a non-command update.
#[derive(Debug)]
pub enum UpdateEffect {
    Notify(Reply),
    FetchDocument { file_id: String, user_id: i64 },
}

/// The first whitespace-separated word of the message text, if there is one.
pub open spec fn arg_word(m: IncomingMessage) -> Option<Seq<char>> {
    match m.text {
        Some(t) => if first_token(t@).len() > 0 {
            Some(first_token(t@))
        } else {
            None
        },
        None => None,
    }
}

/// The first word of the message text read as an identity, if it reads.
pub open spec fn arg_identity(m: IncomingMessage) -> Option<i64> {
    match m.text {
        Some(t) => parse_i64_spec(first_token(t@)),
        None => None,
    }
}

pub open spec fn is_reply(r: CmdEffect, to: i64, text: Seq<char>) -> bool {
    match r {
        CmdEffect::Reply(rep) => rep.to == to && rep.text@ == text,
        _ => false,
    }
}

pub open spec fn is_persist_effect(r: CmdEffect, to: i64) -> bool {
    match r {
        CmdEffect::PersistThenReport { reply_to } => reply_to == to,
        _ => false,
    }
}

pub open spec fn is_print_effect(r: CmdEffect, name: Seq<char>, to: i64) -> bool {
    match r {
        CmdEffect::PrintThenReport { filename, reply_to } => filename@ == name && reply_to == to,
        _ => false,
    }
}

pub open spec fn is_cancel_effect(r: CmdEffect, jobname: Seq<char>, to: i64) -> bool {
    match r {
        CmdEffect::CancelThenReport { job, reply_to } => job@ == jobname && reply_to == to,
        _ => false,
    }
}

pub open spec fn is_delete_effect(r: CmdEffect, name: Seq<char>, to: i64) -> bool {
    match r {
        CmdEffect::DeleteThenReport { filename, reply_to } => filename@ == name && reply_to == to,
        _ => false,
    }
}

pub open spec fn is_send_document_effect(r: CmdEffect, name: Seq<char>, to: i64) -> bool {
    match r {
        CmdEffect::SendDocumentThenReport { filename, reply_to } => filename@ == name && reply_to
            == to,
        _ => false,
    }
}

/// The admin notice sent when a non-administrator tries a mutating command.
pub open spec fn tamper_text(sender: i64) -> Seq<char> {
    "User "@ + i64_dec_spec(sender as int) + " tried to change users"@
}

/// The view of an optional name part: the empty text when absent.
pub open spec fn opt_text(o: Option<String>) -> Seq<char> {
    match o {
        Some(s) => s@,
        None => Seq::<char>::empty(),
    }
}

/// The admin notice announcing an authorization request.
pub open spec fn auth_request_text(u: ChatUser) -> Seq<char> {
    "User "@ + u.first_name@ + " "@ + opt_text(u.last_name) + " @"@ + opt_text(u.username)
        + ", id: "@ + i64_dec_spec(u.id as int) + " wants to auth"@
}

/// A reply with fixed text.
fn static_reply(to: i64, text: &str) -> (r: Reply)
    ensures
        r.to == to,
        r.text@ == text@,
{
    Reply { to, text: text.to_owned() }
}

/// A reply of the form identity-then-suffix.
fn id_suffix_reply(to: i64, id: i64, suffix: &str) -> (r: Reply)
    ensures
        r.to == to,
        r.text@ == i64_dec_spec(id as int) + suffix@,
{
    let mut s = i64_to_string(id);
    s.append(suffix);
    Reply { to, text: s }
}

/// The tamper notice to the administrator.
fn tamper_reply(admin: i64, sender: i64) -> (r: Reply)
    ensures
        r.to == admin,
        r.text@ == tamper_text(sender),
{
    let mut s = "User ".to_owned();
    let d = i64_to_string(sender);
    s.append(d.as_str());
    s.append(" tried to change users");
    Reply { to: admin, text: s }
}

/// The first word of the message text, as characters; empty when there is no
/// text or no word.
fn first_arg_chars(msg: &IncomingMessage) -> (r: Vec<char>)
    ensures
        match msg.text {
            Some(t) => r@ == first_token(t@),
            None => r@ == Seq::<char>::empty(),
        },
{
    match &msg.text {
        Some(t) => {
            let v = string_to_chars(t.as_str());
            first_token_chars(&v)
        },
        None => {
            let r: Vec<char> = Vec::new();
            proof {
                assert(r@ =~= Seq::<char>::empty());
            }
            r
        },
    }
}

/// The administrator's notice that an identity wants to authenticate.
fn auth_request_reply(admin: i64, u: &ChatUser) -> (r: Reply)
    ensures
        r.to == admin,
        r.text@ == auth_request_text(*u),
{
    let mut s = "User ".to_owned();
    s.append(u.first_name.as_str());
    s.append(" ");
    match &u.last_name {
        Some(l) => s.append(l.as_str()),
        None => (),
    }
    s.append(" @");
    match &u.username {
        Some(un) => s.append(un.as_str()),
        None => (),
    }
    s.append(", id: ");
    let d = i64_to_string(u.id);
    s.append(d.as_str());
    s.append(" wants to auth");
    proof {
        assert(s@ =~= auth_request_text(*u));
    }
    Reply { to: admin, text: s }
}

/// `/auth`: any identity may ask for access, and the administrator is
/// notified of every attempt, whatever its outcome. A message without a
/// sender is reported to the administrator; a sender already on the
/// allow-list is additionally told so; an unlisted requester is sent nothing.
pub fn cmd_auth(table: &UsersTable, msg: &IncomingMessage) -> (r: Vec<Reply>)
    requires
        table.wf(),
    ensures
        match msg.from {
            None => r@.len() == 1 && r@[0].to == table@.admin && r@[0].text@
                == "Not a user. Error."@,
            Some(u) => if table@.users.contains(u.id) {
                r@.len() == 2 && r@[0].to == u.id && r@[0].text@ == "You already have access."@
                    && r@[1].to == table@.admin && r@[1].text@ == auth_request_text(u)
            } else {
                r@.len() == 1 && r@[0].to == table@.admin && r@[0].text@ == auth_request_text(u)
            },
        },
{
    let admin = table.get_admin();
    let mut r: Vec<Reply> = Vec::new();
    match &msg.from {
        None => {
            r.push(static_reply(admin, "Not a user. Error."));
        },
        Some(u) => {
            if table.check_user(u.id) {
                r.push(static_reply(u.id, "You already have access."));
            }
            r.push(auth_request_reply(admin, u));
        },
    }
    r
}

/// `/adduser`: administrator only. Adds the identity named by the first word
/// of the text to the allow-list and asks for the table to be persisted; a
/// non-administrator only earns the administrator a tamper notice.
pub fn cmd_add_user(table: &mut UsersTable, msg: &IncomingMessage) -> (r: CmdEffect)
    requires
        old(table).wf(),
    ensures
        final(table).wf(),
        ({
            let admin = old(table)@.admin;
            match msg.from {
                None => {
                    &&& final(table)@ == old(table)@
                    &&& is_reply(r, admin, "Some error with user_id"@)
                },
                Some(u) => if u.id != admin {
                    &&& final(table)@ == old(table)@
                    &&& is_reply(r, admin, tamper_text(u.id))
                } else {
                match arg_identity(*msg) {
                    Some(uid) => {
                        &&& final(table)@.users == old(table)@.users.insert(uid)
                        &&& final(table)@.admin == admin
                        &&& final(table)@.tokens == old(table)@.tokens
                        &&& is_persist_effect(r, admin)
                    },
                    None => {
                        &&& final(table)@ == old(table)@
                        &&& is_reply(r, admin, "Error"@)
                    },
                }
                },
            }
        }),
{
    let admin = table.get_admin();
    let sender = match &msg.from {
        Some(u) => u.id,
        None => {
            return CmdEffect::Reply(static_reply(admin, "Some error with user_id"));
        },
    };
    if sender != admin {
        return CmdEffect::Reply(tamper_reply(admin, sender));
    }
    let word = first_arg_chars(msg);
    match parse_i64_chars(&word) {
        Some(uid) => {
            table.add_user(uid);
            CmdEffect::PersistThenReport { reply_to: admin }
        },
        None => CmdEffect::Reply(static_reply(admin, "Error")),
    }
}

/// `/deluser`: administrator only. Removes the named identity from the
/// allow-list and asks for the table to be persisted.
pub fn cmd_del_user(table: &mut UsersTable, msg: &IncomingMessage) -> (r: CmdEffect)
    requires
        old(table).wf(),
    ensures
        final(table).wf(),
        ({
            let admin = old(table)@.admin;
            match msg.from {
                None => {
                    &&& final(table)@ == old(table)@
                    &&& is_reply(r, admin, "Some error with user_id"@)
                },
                Some(u) => if u.id != admin {
                    &&& final(table)@ == old(table)@
                    &&& is_reply(r, admin, tamper_text(u.id))
                } else {
                match arg_identity(*msg) {
                    Some(uid) => {
                        &&& final(table)@.users == old(table)@.users.remove(uid)
                        &&& final(table)@.admin == admin
                        &&& final(table)@.tokens == old(table)@.tokens
                        &&& is_persist_effect(r, admin)
                    },
                    None => {
                        &&& final(table)@ == old(table)@
                        &&& is_reply(r, admin, "Error"@)
                    },
                }
                },
            }
        }),
{
    let admin = table.get_admin();
    let sender = match &msg.from {
        Some(u) => u.id,
        None => {
            return CmdEffect::Reply(static_reply(admin, "Some error with user_id"));
        },
    };
    if sender != admin {
        return CmdEffect::Reply(tamper_reply(admin, sender));
    }
    let word = first_arg_chars(msg);
    match parse_i64_chars(&word) {
        Some(uid) => {
            table.del_user(uid);
            CmdEffect::PersistThenReport { reply_to: admin }
        },
        None => CmdEffect::Reply(static_reply(admin, "Error")),
    }
}

/// `/addtoken`: administrator only. Registers the first word of the text as a
/// mail token and asks for the table to be persisted.
pub fn cmd_add_token(table: &mut UsersTable, msg: &IncomingMessage) -> (r: CmdEffect)
    requires
        old(table).wf(),
    ensures
        final(table).wf(),
        ({
            let admin = old(table)@.admin;
            match msg.from {
                None => {
                    &&& final(table)@ == old(table)@
                    &&& is_reply(r, admin, "Some error with user_id"@)
                },
                Some(u) => if u.id != admin {
                    &&& final(table)@ == old(table)@
                    &&& is_reply(r, admin, tamper_text(u.id))
                } else {
                match arg_word(*msg) {
                    Some(tok) => {
                        &&& final(table)@.tokens == old(table)@.tokens.insert(tok)
                        &&& final(table)@.admin == admin
                        &&& final(table)@.users == old(table)@.users
                        &&& is_persist_effect(r, admin)
                    },
                    None => {
                        &&& final(table)@ == old(table)@
                        &&& is_reply(r, admin, "Error"@)
                    },
                }
                },
            }
        }),
{
    let admin = table.get_admin();
    let sender = match &msg.from {
        Some(u) => u.id,
        None => {
            return CmdEffect::Reply(static_reply(admin, "Some error with user_id"));
        },
    };
    if sender != admin {
        return CmdEffect::Reply(tamper_reply(admin, sender));
    }
    let word = first_arg_chars(msg);
    if word.len() > 0 {
        let tok = crate::text::chars_to_string(&word);
        table.add_token(tok);
        CmdEffect::PersistThenReport { reply_to: admin }
    } else {
        CmdEffect::Reply(static_reply(admin, "Error"))
    }
}

/// `/deltoken`: administrator only. Withdraws the named mail token and asks
/// for the table to be persisted.
pub fn cmd_del_token(table: &mut UsersTable, msg: &IncomingMessage) -> (r: CmdEffect)
    requires
        old(table).wf(),
    ensures
        final(table).wf(),
        ({
            let admin = old(table)@.admin;
            match msg.from {
                None => {
                    &&& final(table)@ == old(table)@
                    &&& is_reply(r, admin, "Some error with user_id"@)
                },
                Some(u) => if u.id != admin {
                    &&& final(table)@ == old(table)@
                    &&& is_reply(r, admin, tamper_text(u.id))
                } else {
                match arg_word(*msg) {
                    Some(tok) => {
                        &&& final(table)@.tokens == old(table)@.tokens.remove(tok)
                        &&& final(table)@.admin == admin
                        &&& final(table)@.users == old(table)@.users
                        &&& is_persist_effect(r, admin)
                    },
                    None => {
                        &&& final(table)@ == old(table)@
                        &&& is_reply(r, admin, "Error"@)
                    },
                }
                },
            }
        }),
{
    let admin = table.get_admin();
    let sender = match &msg.from {
        Some(u) => u.id,
        None => {
            return CmdEffect::Reply(static_reply(admin, "Some error with user_id"));
        },
    };
    if sender != admin {
        return CmdEffect::Reply(tamper_reply(admin, sender));
    }
    let word = first_arg_chars(msg);
    if word.len() > 0 {
        let tok = crate::text::chars_to_string(&word);
        table.del_token(tok);
        CmdEffect::PersistThenReport { reply_to: admin }
    } else {
        CmdEffect::Reply(static_reply(admin, "Error"))
    }
}

/// `/gentoken`: administrator only. Produces a fresh token from the given
/// name; the token is reported, not registered.
pub fn cmd_gen_token(table: &UsersTable, msg: &IncomingMessage) -> (r: CmdEffect)
    requires
        table.wf(),
    ensures
        ({
            let admin = table@.admin;
            match msg.from {
                None => is_reply(r, admin, "Some error with user_id"@),
                Some(u) => if u.id != admin {
                    is_reply(r, admin, tamper_text(u.id))
                } else {
                    match arg_word(*msg) {
                        Some(name) => match r {
                            CmdEffect::Reply(rep) => rep.to == admin && rep.text@.len()
                                == name.len() + 40 && exists|noise: Seq<u8>|
                                noise.len() == 64 && rep.text@ == name + hex_of(
                                    sha1_of(encode_utf8(name) + noise),
                                ),
                            _ => false,
                        },
                        None => is_reply(r, admin, "Error"@),
                    }
                },
            }
        }),
{
    let admin = table.get_admin();
    let sender = match &msg.from {
        Some(u) => u.id,
        None => {
            return CmdEffect::Reply(static_reply(admin, "Some error with user_id"));
        },
    };
    if sender != admin {
        return CmdEffect::Reply(tamper_reply(admin, sender));
    }
    let word = first_arg_chars(msg);
    if word.len() > 0 {
        let name = crate::text::chars_to_string(&word);
        let tok = generate_token(name);
        CmdEffect::Reply(Reply { to: admin, text: tok })
    } else {
        CmdEffect::Reply(static_reply(admin, "Error"))
    }
}

/// The outcome report after persisting the table: plain success, or the
/// persistence error, to the administrator either way.
pub fn persist_report(to: i64, error: Option<String>) -> (r: Reply)
    ensures
        r.to == to,
        match error {
            None => r.text@ == "Ok"@,
            Some(e) => r.text@ == "Error on writing config: "@ + e@,
        },
{
    match error {
        None => static_reply(to, "Ok"),
        Some(e) => {
            let mut s = "Error on writing config: ".to_owned();
            s.append(e.as_str());
            Reply { to, text: s }
        },
    }
}

/// Whether an identity may submit documents: the administrator, or anyone on
/// the allow-list.
pub open spec fn may_submit(v: AccessView, id: i64) -> bool {
    id == v.admin || v.users.contains(id)
}

/// The tail of a bracketed identity list: a separator before each further
/// member.
pub open spec fn i64_tail_items(s: Seq<i64>) -> Seq<char>
    decreases s.len(),
{
    if s.len() == 0 {
        Seq::<char>::empty()
    } else {
        seq![',', ' '] + i64_dec_spec(s[0] as int) + i64_tail_items(s.drop_first())
    }
}

/// A bracketed list of identities, in stored order.
pub open spec fn i64_list_text(s: Seq<i64>) -> Seq<char> {
    if s.len() == 0 {
        seq!['[', ']']
    } else {
        seq!['['] + i64_dec_spec(s[0] as int) + i64_tail_items(s.drop_first()) + seq![']']
    }
}

/// The tail of a bracketed token list.
pub open spec fn str_tail_items(s: Seq<Seq<char>>) -> Seq<char>
    decreases s.len(),
{
    if s.len() == 0 {
        Seq::<char>::empty()
    } else {
        seq![',', ' ', '"'] + s[0] + seq!['"'] + str_tail_items(s.drop_first())
    }
}

/// A bracketed list of quoted tokens, in stored order.
pub open spec fn str_list_text(s: Seq<Seq<char>>) -> Seq<char> {
    if s.len() == 0 {
        seq!['[', ']']
    } else {
        seq!['[', '"'] + s[0] + seq!['"'] + str_tail_items(s.drop_first()) + seq![']']
    }
}

proof fn lemma_i64_tail_items_append(a: Seq<i64>, b: Seq<i64>)
    ensures
        i64_tail_items(a + b) == i64_tail_items(a) + i64_tail_items(b),
    decreases a.len(),
{
    if a.len() == 0 {
        assert(a + b =~= b);
        assert(i64_tail_items(a) + i64_tail_items(b) =~= i64_tail_items(b));
    } else {
        lemma_i64_tail_items_append(a.drop_first(), b);
        assert((a + b).drop_first() =~= a.drop_first() + b);
        assert((a + b)[0] == a[0]);
        assert(seq![',', ' '] + i64_dec_spec(a[0] as int) + (i64_tail_items(a.drop_first())
            + i64_tail_items(b)) =~= (seq![',', ' '] + i64_dec_spec(a[0] as int) + i64_tail_items(
            a.drop_first(),
        )) + i64_tail_items(b));
    }
}

proof fn lemma_str_tail_items_append(a: Seq<Seq<char>>, b: Seq<Seq<char>>)
    ensures
        str_tail_items(a + b) == str_tail_items(a) + str_tail_items(b),
    decreases a.len(),
{
    if a.len() == 0 {
        assert(a + b =~= b);
        assert(str_tail_items(a) + str_tail_items(b) =~= str_tail_items(b));
    } else {
        lemma_str_tail_items_append(a.drop_first(), b);
        assert((a + b).drop_first() =~= a.drop_first() + b);
        assert((a + b)[0] == a[0]);
        assert(seq![',', ' ', '"'] + a[0] + seq!['"'] + (str_tail_items(a.drop_first())
            + str_tail_items(b)) =~= (seq![',', ' ', '"'] + a[0] + seq!['"'] + str_tail_items(
            a.drop_first(),
        )) + str_tail_items(b));
    }
}

/// The bracketed listing of the authorized identities.
fn i64_list_string(v: &Vec<i64>) -> (r: String)
    ensures
        r@ == i64_list_text(v@),
{
    let n: usize = v.len();
    if n == 0 {
        let r = "[]".to_owned();
        proof {
            reveal_strlit("[]");
            assert("[]"@ =~= seq!['[', ']']);
        }
        return r;
    }
    let mut s = "[".to_owned();
    proof {
        reveal_strlit("[");
        assert("["@ =~= seq!['[']);
    }
    let d0 = i64_to_string(v[0]);
    s.append(d0.as_str());
    let mut i: usize = 1;
    proof {
        assert(v@.subrange(1, 1).len() == 0);
        assert(i64_tail_items(v@.subrange(1, 1)) == Seq::<char>::empty());
        assert(s@ =~= seq!['['] + i64_dec_spec(v@[0] as int) + i64_tail_items(v@.subrange(1, 1)));
    }
    while i < n
        invariant
            1 <= i <= n,
            n == v@.len(),
            s@ == seq!['['] + i64_dec_spec(v@[0] as int) + i64_tail_items(
                v@.subrange(1, i as int),
            ),
        decreases n - i,
    {
        s.append(", ");
        proof {
            reveal_strlit(", ");
            assert(", "@ =~= seq![',', ' ']);
        }
        let d = i64_to_string(v[i]);
        s.append(d.as_str());
        proof {
            let pre = v@.subrange(1, i as int);
            let post = v@.subrange(1, i + 1);
            assert(post =~= pre + seq![v@[i as int]]);
            lemma_i64_tail_items_append(pre, seq![v@[i as int]]);
            let one = seq![v@[i as int]];
            assert(one.drop_first() =~= Seq::<i64>::empty());
            assert(i64_tail_items(one.drop_first()) == Seq::<char>::empty());
            assert(i64_tail_items(one) =~= seq![',', ' '] + i64_dec_spec(v@[i as int] as int));
            assert(s@ =~= seq!['['] + i64_dec_spec(v@[0] as int) + i64_tail_items(post));
        }
        i = i + 1;
    }
    s.append("]");
    proof {
        reveal_strlit("]");
        assert("]"@ =~= seq![']']);
        assert(v@.subrange(1, n as int) =~= v@.drop_first());
        assert(i64_list_text(v@) == seq!['['] + i64_dec_spec(v@[0] as int) + i64_tail_items(
            v@.drop_first(),
        ) + seq![']']);
        assert(s@ =~= i64_list_text(v@));
    }
    s
}

/// The bracketed listing of the mail tokens, each in quotes.
fn token_list_string(v: &Vec<String>) -> (r: String)
    ensures
        r@ == str_list_text(Seq::new(v@.len(), |i: int| v@[i]@)),
{
    let ghost views = Seq::new(v@.len(), |i: int| v@[i]@);
    let n: usize = v.len();
    if n == 0 {
        let r = "[]".to_owned();
        proof {
            reveal_strlit("[]");
            assert("[]"@ =~= seq!['[', ']']);
        }
        return r;
    }
    let mut s = "[\"".to_owned();
    proof {
        reveal_strlit("[\"");
        assert("[\""@ =~= seq!['[', '"']);
    }
    s.append(v[0].as_str());
    s.append("\"");
    let mut i: usize = 1;
    proof {
        reveal_strlit("\"");
        assert("\""@ =~= seq!['"']);
        assert(views.subrange(1, 1).len() == 0);
        assert(str_tail_items(views.subrange(1, 1)) == Seq::<char>::empty());
        assert(s@ =~= seq!['[', '"'] + views[0] + seq!['"'] + str_tail_items(
            views.subrange(1, 1),
        ));
    }
    while i < n
        invariant
            1 <= i <= n,
            n == v@.len(),
            views == Seq::new(v@.len(), |j: int| v@[j]@),
            s@ == seq!['[', '"'] + views[0] + seq!['"'] + str_tail_items(
                views.subrange(1, i as int),
            ),
        decreases n - i,
    {
        s.append(", \"");
        proof {
            reveal_strlit(", \"");
            assert(", \""@ =~= seq![',', ' ', '"']);
        }
        s.append(v[i].as_str());
        s.append("\"");
        proof {
            reveal_strlit("\"");
            assert("\""@ =~= seq!['"']);
            let pre = views.subrange(1, i as int);
            let post = views.subrange(1, i + 1);
            assert(post =~= pre + seq![views[i as int]]);
            lemma_str_tail_items_append(pre, seq![views[i as int]]);
            let one = seq![views[i as int]];
            assert(one.drop_first() =~= Seq::<Seq<char>>::empty());
            assert(str_tail_items(one.drop_first()) == Seq::<char>::empty());
            assert(str_tail_items(one) =~= seq![',', ' ', '"'] + views[i as int] + seq!['"']);
            assert(s@ =~= seq!['[', '"'] + views[0] + seq!['"'] + str_tail_items(post));
        }
        i = i + 1;
    }
    s.append("]");
    proof {
        reveal_strlit("]");
        assert("]"@ =~= seq![']']);
        assert(views.subrange(1, n as int) =~= views.drop_first());
        assert(str_list_text(views) == seq!['[', '"'] + views[0] + seq!['"'] + str_tail_items(
            views.drop_first(),
        ) + seq![']']);
        assert(s@ =~= str_list_text(views));
    }
    s
}

/// `/users`: administrator only; lists the authorized identities.
pub fn cmd_users(table: &UsersTable, msg: &IncomingMessage) -> (r: Reply)
    requires
        table.wf(),
    ensures
        ({
            let admin = table@.admin;
            match msg.from {
                None => r.to == admin && r.text@ == "Some error with user_id"@,
                Some(u) => if u.id != admin {
                    r.to == admin && r.text@ == i64_dec_spec(u.id as int) + " tried to see users"@
                } else {
                    r.to == admin && r.text@ == i64_list_text(table.users_seq())
                },
            }
        }),
{
    let admin = table.get_admin();
    match &msg.from {
        None => static_reply(admin, "Some error with user_id"),
        Some(u) => {
            if u.id != admin {
                id_suffix_reply(admin, u.id, " tried to see users")
            } else {
                let data = table.vectorize();
                let text = i64_list_string(&data.users);
                Reply { to: admin, text }
            }
        },
    }
}

/// `/tokens`: administrator only; lists the mail tokens.
pub fn cmd_tokens(table: &UsersTable, msg: &IncomingMessage) -> (r: Reply)
    requires
        table.wf(),
    ensures
        ({
            let admin = table@.admin;
            match msg.from {
                None => r.to == admin && r.text@ == "Some error with user_id"@,
                Some(u) => if u.id != admin {
                    r.to == admin && r.text@ == i64_dec_spec(u.id as int) + " tried to see users"@
                } else {
                    r.to == admin && r.text@ == str_list_text(table.tokens_seq())
                },
            }
        }),
{
    let admin = table.get_admin();
    match &msg.from {
        None => static_reply(admin, "Some error with user_id"),
        Some(u) => {
            if u.id != admin {
                id_suffix_reply(admin, u.id, " tried to see users")
            } else {
                let data = table.vectorize();
                let text = token_list_string(&data.mail_tokens);
                proof {
                    assert(Seq::new(data.mail_tokens@.len(), |i: int| data.mail_tokens@[i]@)
                        =~= table.tokens_seq());
                }
                Reply { to: admin, text }
            }
        },
    }
}

/// `/print`: a submission command. The administrator and every identity on
/// the allow-list may print; anyone else is told they have no access and the
/// dispatcher is never reached.
pub fn cmd_print(table: &UsersTable, msg: &IncomingMessage) -> (r: CmdEffect)
    requires
        table.wf(),
    ensures
        ({
            let admin = table@.admin;
            match msg.from {
                None => is_reply(r, admin, "Some error with user_id"@),
                Some(u) => if !may_submit(table@, u.id) {
                    is_reply(r, u.id, "You don't have access to printer."@)
                } else {
                    match msg.text {
                        None => is_reply(r, admin, "No text error"@),
                        Some(t) => if first_token(t@).len() == 0 {
                            is_reply(r, admin, "No filename was specified. Error"@)
                        } else {
                            is_print_effect(r, first_token(t@), admin)
                        },
                    }
                },
            }
        }),
{
    let admin = table.get_admin();
    match &msg.from {
        None => CmdEffect::Reply(static_reply(admin, "Some error with user_id")),
        Some(u) => {
            if !(u.id == admin || table.check_user(u.id)) {
                return CmdEffect::Reply(static_reply(u.id, "You don't have access to printer."));
            }
            if msg.text.is_none() {
                return CmdEffect::Reply(static_reply(admin, "No text error"));
            }
            let word = first_arg_chars(msg);
            if word.len() == 0 {
                return CmdEffect::Reply(static_reply(admin, "No filename was specified. Error"));
            }
            let filename = crate::text::chars_to_string(&word);
            CmdEffect::PrintThenReport { filename, reply_to: admin }
        },
    }
}

/// A plain reply never carries an outward action: together with the gates of
/// `cmd_print` and `handle_update` this says a rejected requester's message
/// reaches neither the dispatcher nor the fetcher.
pub proof fn lemma_reply_dispatches_nothing(r: CmdEffect, to: i64, text: Seq<char>)
    requires
        is_reply(r, to, text),
    ensures
        !(r is PrintThenReport),
        !(r is PersistThenReport),
        !(r is DeleteThenReport),
        !(r is CancelThenReport),
        !(r is SendDocumentThenReport),
{
}

/// The outcome report after a print submission.
pub fn print_report(to: i64, error: Option<String>) -> (r: Reply)
    ensures
        r.to == to,
        match error {
            None => r.text@ == "The file was printed and cleaned successfully."@,
            Some(e) => r.text@ == "Error on printing the file: "@ + e@,
        },
{
    match error {
        None => static_reply(to, "The file was printed and cleaned successfully."),
        Some(e) => {
            let mut s = "Error on printing the file: ".to_owned();
            s.append(e.as_str());
            Reply { to, text: s }
        },
    }
}

/// `/files`: administrator only; asks for the stored-file listing.
pub fn cmd_files(table: &UsersTable, msg: &IncomingMessage) -> (r: CmdEffect)
    requires
        table.wf(),
    ensures
        ({
            let admin = table@.admin;
            match msg.from {
                None => is_reply(r, admin, "Some error with user_id"@),
                Some(u) => if u.id != admin {
                    is_reply(r, admin, i64_dec_spec(u.id as int) + " tried to see files"@)
                } else {
                    r is ListFilesThenReport && r->ListFilesThenReport_reply_to == admin
                },
            }
        }),
{
    let admin = table.get_admin();
    match &msg.from {
        None => CmdEffect::Reply(static_reply(admin, "Some error with user_id")),
        Some(u) => {
            if u.id != admin {
                CmdEffect::Reply(id_suffix_reply(admin, u.id, " tried to see files"))
            } else {
                CmdEffect::ListFilesThenReport { reply_to: admin }
            }
        },
    }
}

/// The outcome report after listing the stored files.
pub fn files_outcome_report(to: i64, outcome: Result<String, String>) -> (r: Reply)
    ensures
        r.to == to,
        match outcome {
            Ok(data) => r.text@ == data@,
            Err(e) => r.text@ == "Error on getting files: "@ + e@,
        },
{
    match outcome {
        Ok(data) => Reply { to, text: data },
        Err(e) => {
            let mut s = "Error on getting files: ".to_owned();
            s.append(e.as_str());
            Reply { to, text: s }
        },
    }
}

/// `/getfile`: administrator only; asks for the named stored file to be sent
/// back over the transport.
pub fn cmd_get_file(table: &UsersTable, msg: &IncomingMessage) -> (r: CmdEffect)
    requires
        table.wf(),
    ensures
        ({
            let admin = table@.admin;
            match msg.from {
                None => is_reply(r, admin, "Some error with user_id"@),
                Some(u) => if u.id != admin {
                    is_reply(r, admin, i64_dec_spec(u.id as int) + " tried to get file"@)
                } else {
                    match msg.text {
                        None => is_reply(r, admin, "No text error"@),
                        Some(t) => if first_token(t@).len() == 0 {
                            is_reply(r, admin, "No filename was specified. Error"@)
                        } else {
                            is_send_document_effect(r, first_token(t@), admin)
                        },
                    }
                },
            }
        }),
{
    let admin = table.get_admin();
    match &msg.from {
        None => CmdEffect::Reply(static_reply(admin, "Some error with user_id")),
        Some(u) => {
            if u.id != admin {
                return CmdEffect::Reply(id_suffix_reply(admin, u.id, " tried to get file"));
            }
            if msg.text.is_none() {
                return CmdEffect::Reply(static_reply(admin, "No text error"));
            }
            let word = first_arg_chars(msg);
            if word.len() == 0 {
                return CmdEffect::Reply(static_reply(admin, "No filename was specified. Error"));
            }
            let filename = crate::text::chars_to_string(&word);
            CmdEffect::SendDocumentThenReport { filename, reply_to: admin }
        },
    }
}

/// The closing reply after a stored file was sent back.
pub fn get_file_report(to: i64) -> (r: Reply)
    ensures
        r.to == to,
        r.text@ == "/|\\ Your file\n | "@,
{
    static_reply(to, "/|\\ Your file\n | ")
}

/// `/delfile`: administrator only; asks for the named stored file to be
/// deleted.
pub fn cmd_delete_file(table: &UsersTable, msg: &IncomingMessage) -> (r: CmdEffect)
    requires
        table.wf(),
    ensures
        ({
            let admin = table@.admin;
            match msg.from {
                None => is_reply(r, admin, "Some error with user_id"@),
                Some(u) => if u.id != admin {
                    is_reply(r, admin, i64_dec_spec(u.id as int) + " tried to delete file"@)
                } else {
                    match msg.text {
                        None => is_reply(r, admin, "No text error"@),
                        Some(t) => if first_token(t@).len() == 0 {
                            is_reply(r, admin, "No filename was specified. Error"@)
                        } else {
                            is_delete_effect(r, first_token(t@), admin)
                        },
                    }
                },
            }
        }),
{
    let admin = table.get_admin();
    match &msg.from {
        None => CmdEffect::Reply(static_reply(admin, "Some error with user_id")),
        Some(u) => {
            if u.id != admin {
                return CmdEffect::Reply(id_suffix_reply(admin, u.id, " tried to delete file"));
            }
            if msg.text.is_none() {
                return CmdEffect::Reply(static_reply(admin, "No text error"));
            }
            let word = first_arg_chars(msg);
            if word.len() == 0 {
                return CmdEffect::Reply(static_reply(admin, "No filename was specified. Error"));
            }
            let filename = crate::text::chars_to_string(&word);
            CmdEffect::DeleteThenReport { filename, reply_to: admin }
        },
    }
}

/// The outcome report after deleting a stored file.
pub fn delete_report(to: i64, error: Option<String>) -> (r: Reply)
    ensures
        r.to == to,
        match error {
            None => r.text@ == "Ok"@,
            Some(e) => r.text@ == "Error on deleting file: "@ + e@,
        },
{
    match error {
        None => static_reply(to, "Ok"),
        Some(e) => {
            let mut s = "Error on deleting file: ".to_owned();
            s.append(e.as_str());
            Reply { to, text: s }
        },
    }
}

/// `/lpstat`: administrator only; asks for the queue report.
pub fn cmd_lpstat(table: &UsersTable, msg: &IncomingMessage) -> (r: CmdEffect)
    requires
        table.wf(),
    ensures
        ({
            let admin = table@.admin;
            match msg.from {
                None => is_reply(r, admin, "Some error with user_id"@),
                Some(u) => if u.id != admin {
                    is_reply(r, admin, i64_dec_spec(u.id as int) + " tried to use lpstat"@)
                } else {
                    r is LpstatThenReport && r->LpstatThenReport_reply_to == admin
                },
            }
        }),
{
    let admin = table.get_admin();
    match &msg.from {
        None => CmdEffect::Reply(static_reply(admin, "Some error with user_id")),
        Some(u) => {
            if u.id != admin {
                CmdEffect::Reply(id_suffix_reply(admin, u.id, " tried to use lpstat"))
            } else {
                CmdEffect::LpstatThenReport { reply_to: admin }
            }
        },
    }
}

/// `/cancel`: administrator only; asks for the named print job to be
/// cancelled.
pub fn cmd_cancel(table: &UsersTable, msg: &IncomingMessage) -> (r: CmdEffect)
    requires
        table.wf(),
    ensures
        ({
            let admin = table@.admin;
            match msg.from {
                None => is_reply(r, admin, "Some error with user_id"@),
                Some(u) => if u.id != admin {
                    is_reply(r, admin, i64_dec_spec(u.id as int) + " tried to use cancel"@)
                } else {
                    match msg.text {
                        None => is_reply(r, admin, "No text error"@),
                        Some(t) => if first_token(t@).len() == 0 {
                            is_reply(r, admin, "No job was specified. Error"@)
                        } else {
                            is_cancel_effect(r, first_token(t@), admin)
                        },
                    }
                },
            }
        }),
{
    let admin = table.get_admin();
    match &msg.from {
        None => CmdEffect::Reply(static_reply(admin, "Some error with user_id")),
        Some(u) => {
            if u.id != admin {
                return CmdEffect::Reply(id_suffix_reply(admin, u.id, " tried to use cancel"));
            }
            if msg.text.is_none() {
                return CmdEffect::Reply(static_reply(admin, "No text error"));
            }
            let word = first_arg_chars(msg);
            if word.len() == 0 {
                return CmdEffect::Reply(static_reply(admin, "No job was specified. Error"));
            }
            let job = crate::text::chars_to_string(&word);
            CmdEffect::CancelThenReport { job, reply_to: admin }
        },
    }
}

/// The outcome report after a job-cancel attempt.
pub fn cancel_report(to: i64, error: Option<String>) -> (r: Reply)
    ensures
        r.to == to,
        match error {
            None => r.text@ == "The job was canceled successfully."@,
            Some(e) => r.text@ == "Error on canceling the job:\n"@ + e@,
        },
{
    match error {
        None => static_reply(to, "The job was canceled successfully."),
        Some(e) => {
            let mut s = "Error on canceling the job:\n".to_owned();
            s.append(e.as_str());
            Reply { to, text: s }
        },
    }
}

/// `/help`: the administrator gets the command list, an authorized user is
/// told to send a document, anyone else is told to authenticate.
pub fn cmd_help(table: &UsersTable, msg: &IncomingMessage) -> (r: Reply)
    requires
        table.wf(),
    ensures
        ({
            let admin = table@.admin;
            match msg.from {
                None => r.to == admin && r.text@ == "Some error with user_id"@,
                Some(u) => if u.id == admin {
                    r.to == admin && r.text@ == help_text()
                } else if table@.users.contains(u.id) {
                    r.to == u.id && r.text@ == "Just send PDF file"@
                } else {
                    r.to == u.id && r.text@ == "You must authenticate by `/auth` command."@
                },
            }
        }),
{
    let admin = table.get_admin();
    match &msg.from {
        None => static_reply(admin, "Some error with user_id"),
        Some(u) => {
            if u.id == admin {
                static_reply(
                    admin,
                    "
Use the commands below to manage users, tokens, files and printer:
* `/adduser <user_id>` -  add user to the access list
* `/addtoken <token>` - add token to the access list
* `/gentoken <name>` - generate token
* `/deluser <user_id>` - delete user from the access list
* `/deltoken <token>` - delete token from the access list
* `/print <filename>` - print the file
* `/users` - get users list
* `/tokens` - get tokens list
* `/files` - get files list
* `/getfile <filename>` - get file
* `/delfile <filename>` - delete file
* `/lpstat` - see lpstat output
* `/cancel <job ID or name>` - cancel the job
* `/help` - print the list of commands above",
                )
            } else if table.check_user(u.id) {
                static_reply(u.id, "Just send PDF file")
            } else {
                static_reply(u.id, "You must authenticate by `/auth` command.")
            }
        },
    }
}

/// The text of the administrator's command list.
pub open spec fn help_text() -> Seq<char> {
    "
Use the commands below to manage users, tokens, files and printer:
* `/adduser <user_id>` -  add user to the access list
* `/addtoken <token>` - add token to the access list
* `/gentoken <name>` - generate token
* `/deluser <user_id>` - delete user from the access list
* `/deltoken <token>` - delete token from the access list
* `/print <filename>` - print the file
* `/users` - get users list
* `/tokens` - get tokens list
* `/files` - get files list
* `/getfile <filename>` - get file
* `/delfile <filename>` - delete file
* `/lpstat` - see lpstat output
* `/cancel <job ID or name>` - cancel the job
* `/help` - print the list of commands above"@
}

/// A non-command update: a document sent directly. The submission is gated by
/// the same allow-list as `/print`; an authorized submitter's document handle
/// goes to the fetcher, everyone else only gets a message.
pub fn handle_update(table: &UsersTable, msg: &IncomingMessage) -> (r: UpdateEffect)
    requires
        table.wf(),
    ensures
        ({
            let admin = table@.admin;
            match msg.from {
                None => match r {
                    UpdateEffect::Notify(rep) => rep.to == admin && rep.text@
                        == "Some error with user_id"@,
                    _ => false,
                },
                Some(u) => if !may_submit(table@, u.id) {
                    match r {
                        UpdateEffect::Notify(rep) => rep.to == u.id && rep.text@
                            == "You don't have access to printer."@,
                        _ => false,
                    }
                } else {
                    match msg.document {
                        None => match r {
                            UpdateEffect::Notify(rep) => rep.to == u.id && rep.text@
                                == "Error: no file or unknown command"@,
                            _ => false,
                        },
                        Some(doc) => match r {
                            UpdateEffect::FetchDocument { file_id, user_id } => file_id@ == doc@
                                && user_id == u.id,
                            _ => false,
                        },
                    }
                },
            }
        }),
{
    let admin = table.get_admin();
    match &msg.from {
        None => UpdateEffect::Notify(static_reply(admin, "Some error with user_id")),
        Some(u) => {
            if !(u.id == admin || table.check_user(u.id)) {
                return UpdateEffect::Notify(
                    static_reply(u.id, "You don't have access to printer."),
                );
            }
            match &msg.document {
                None => UpdateEffect::Notify(
                    static_reply(u.id, "Error: no file or unknown command"),
                ),
                Some(doc) => UpdateEffect::FetchDocument {
                    file_id: doc.clone(),
                    user_id: u.id,
                },
            }
        },
    }
}

/// What came of fetching a directly submitted document.
#[derive(Debug)]
pub enum DownloadOutcome {
    LinkFailed(String),
    DownloadFailed(String),
    Stored { filename: String },
}

/// The administrator messages that follow a direct submission: nothing when
/// the transport gave no link, the download error when the fetch failed, and
/// otherwise the announcement of who wants to print plus the stored name.
pub fn submission_report(admin: i64, user_id: i64, outcome: &DownloadOutcome) -> (r: Vec<Reply>)
    ensures
        match outcome {
            DownloadOutcome::LinkFailed(_) => r@.len() == 0,
            DownloadOutcome::DownloadFailed(e) => r@.len() == 1 && r@[0].to == admin
                && r@[0].text@ == "Error in downloading file: "@ + e@,
            DownloadOutcome::Stored { filename } => r@.len() == 2 && r@[0].to == admin
                && r@[0].text@ == "User "@ + i64_dec_spec(user_id as int) + " wants to print:\n"@
                + filename@ && r@[1].to == admin && r@[1].text@ == filename@,
        },
{
    let mut r: Vec<Reply> = Vec::new();
    match outcome {
        DownloadOutcome::LinkFailed(_) => r,
        DownloadOutcome::DownloadFailed(e) => {
            let mut s = "Error in downloading file: ".to_owned();
            s.append(e.as_str());
            r.push(Reply { to: admin, text: s });
            r
        },
        DownloadOutcome::Stored { filename } => {
            let mut s = "User ".to_owned();
            let d = i64_to_string(user_id);
            s.append(d.as_str());
            s.append(" wants to print:\n");
            s.append(filename.as_str());
            r.push(Reply { to: admin, text: s });
            r.push(Reply { to: admin, text: filename.clone() });
            r
        },
    }
}

} // verus!
