//! The access-control table: authorized chat identities, one administrator,
//! and single-use mail tokens. Membership is modelled as sets; the table is
//! stored as duplicate-free vectors so it can be persisted and listed.

use vstd::prelude::*;

verus! {

/// Access table as plain vectors, the shape it is persisted and listed in.
#[derive(Clone, Debug)]
pub struct Users {
    pub users: Vec<i64>,
    pub admin: i64,
    pub mail_tokens: Vec<String>,
}

/// Mathematical content of an access table.
#[verifier::ext_equal]
pub struct AccessView {
    pub users: Set<i64>,
    pub admin: i64,
    pub tokens: Set<Seq<char>>,
}

/// The working access table. Its vectors never hold duplicates, so they
/// faithfully represent the sets of its view.
#[derive(Clone, Debug)]
pub struct UsersTable {
    users: Vec<i64>,
    admin: i64,
    mail_tokens: Vec<String>,
}

/// No element occurs twice.
pub open spec fn distinct_seq<A>(s: Seq<A>) -> bool {
    forall|i: int, j: int| 0 <= i < j < s.len() ==> s[i] != s[j]
}

impl View for UsersTable {
    type V = AccessView;

    open spec fn view(&self) -> AccessView {
        AccessView {
            users: self.users_seq().to_set(),
            admin: self.admin_spec(),
            tokens: self.tokens_seq().to_set(),
        }
    }
}

impl UsersTable {
    /// The authorized identities in their stored order.
    pub closed spec fn users_seq(&self) -> Seq<i64> {
        self.users@
    }

    /// The mail tokens in their stored order.
    pub closed spec fn tokens_seq(&self) -> Seq<Seq<char>> {
        Seq::new(self.mail_tokens@.len(), |i: int| self.mail_tokens@[i]@)
    }

    pub closed spec fn admin_spec(&self) -> i64 {
        self.admin
    }

    /// The stored vectors hold each member exactly once.
    pub open spec fn wf(&self) -> bool {
        distinct_seq(self.users_seq()) && distinct_seq(self.tokens_seq())
    }

    /// An empty table under the given administrator.
    pub fn new(admin_id: i64) -> (t: UsersTable)
        ensures
            t.wf(),
            t@.users == Set::<i64>::empty(),
            t@.tokens == Set::<Seq<char>>::empty(),
            t@.admin == admin_id,
            t.users_seq() == Seq::<i64>::empty(),
            t.tokens_seq() == Seq::<Seq<char>>::empty(),
    {
        let t = UsersTable { users: Vec::new(), admin: admin_id, mail_tokens: Vec::new() };
        proof {
            assert(t.tokens_seq() =~= Seq::<Seq<char>>::empty());
            assert(t.users_seq().to_set() =~= Set::<i64>::empty());
            assert(t.tokens_seq().to_set() =~= Set::<Seq<char>>::empty());
        }
        t
    }

    /// Position of an identity in the stored vector, if present.
    fn find_user(&self, user_id: i64) -> (r: Option<usize>)
        ensures
            match r {
                Some(i) => i < self.users_seq().len() && self.users_seq()[i as int] == user_id,
                None => !self.users_seq().contains(user_id),
            },
    {
        let n: usize = self.users.len();
        let mut i: usize = 0;
        while i < n
            invariant
                0 <= i <= n,
                n == self.users@.len(),
                forall|j: int| 0 <= j < i ==> self.users@[j] != user_id,
            decreases n - i,
        {
            if self.users[i] == user_id {
                return Some(i);
            }
            i = i + 1;
        }
        None
    }

    /// Position of a token in the stored vector, if present.
    fn find_token(&self, token: &String) -> (r: Option<usize>)
        ensures
            match r {
                Some(i) => i < self.tokens_seq().len() && self.tokens_seq()[i as int] == token@,
                None => !self.tokens_seq().contains(token@),
            },
    {
        let n: usize = self.mail_tokens.len();
        let mut i: usize = 0;
        while i < n
            invariant
                0 <= i <= n,
                n == self.mail_tokens@.len(),
                forall|j: int| 0 <= j < i ==> self.tokens_seq()[j] != token@,
            decreases n - i,
        {
            if self.mail_tokens[i] == *token {
                proof {
                    assert(self.tokens_seq()[i as int] == self.mail_tokens@[i as int]@);
                }
                return Some(i);
            }
            i = i + 1;
        }
        proof {
            assert forall|j: int| 0 <= j < self.tokens_seq().len() implies self.tokens_seq()[j]
                != token@ by {}
        }
        None
    }

    /// Authorizes a chat identity. Adding a member again changes nothing.
    pub fn add_user(&mut self, user_id: i64)
        requires
            old(self).wf(),
        ensures
            final(self).wf(),
            final(self)@.users == old(self)@.users.insert(user_id),
            final(self)@.admin == old(self)@.admin,
            final(self)@.tokens == old(self)@.tokens,
            final(self).tokens_seq() == old(self).tokens_seq(),
    {
        let found = self.find_user(user_id);
        match found {
            Some(_) => {
                proof {
                    assert(old(self)@.users.contains(user_id));
                    assert(final(self)@.users =~= old(self)@.users.insert(user_id));
                }
            },
            None => {
                self.users.push(user_id);
                proof {
                    let olds = old(self).users_seq();
                    let news = self.users_seq();
                    assert(news =~= olds.push(user_id));
                    assert forall|a: i64| news.to_set().contains(a) <==> olds.to_set().insert(
                        user_id,
                    ).contains(a) by {
                        if news.contains(a) {
                            let i = choose|i: int| 0 <= i < news.len() && news[i] == a;
                            if i < olds.len() {
                                assert(olds[i] == a);
                            }
                        }
                        if olds.contains(a) {
                            let i = choose|i: int| 0 <= i < olds.len() && olds[i] == a;
                            assert(news[i] == a);
                        }
                        if a == user_id {
                            assert(news[news.len() - 1] == a);
                        }
                    }
                    assert(news.to_set() =~= olds.to_set().insert(user_id));
                    assert(self.tokens_seq() =~= old(self).tokens_seq());
                }
            },
        }
    }

    /// Revokes a chat identity. Removing an absent member changes nothing.
    pub fn del_user(&mut self, user_id: i64)
        requires
            old(self).wf(),
        ensures
            final(self).wf(),
            final(self)@.users == old(self)@.users.remove(user_id),
            final(self)@.admin == old(self)@.admin,
            final(self)@.tokens == old(self)@.tokens,
            final(self).tokens_seq() == old(self).tokens_seq(),
    {
        let found = self.find_user(user_id);
        match found {
            Some(i) => {
                self.users.remove(i);
                proof {
                    let olds = old(self).users_seq();
                    let news = self.users_seq();
                    assert(news =~= olds.subrange(0, i as int) + olds.subrange(
                        i + 1,
                        olds.len() as int,
                    ));
                    assert forall|a: i64| news.to_set().contains(a) <==> olds.to_set().remove(
                        user_id,
                    ).contains(a) by {
                        if news.contains(a) {
                            let k = choose|k: int| 0 <= k < news.len() && news[k] == a;
                            if k < i {
                                assert(olds[k] == a);
                                assert(a != user_id);
                            } else {
                                assert(olds[k + 1] == a);
                                assert(a != user_id);
                            }
                        }
                        if olds.contains(a) && a != user_id {
                            let k = choose|k: int| 0 <= k < olds.len() && olds[k] == a;
                            if k < i {
                                assert(news[k] == a);
                            } else {
                                assert(k != i);
                                assert(news[k - 1] == a);
                            }
                        }
                    }
                    assert(news.to_set() =~= olds.to_set().remove(user_id));
                    assert(self.tokens_seq() =~= old(self).tokens_seq());
                }
            },
            None => {
                proof {
                    assert(!old(self)@.users.contains(user_id));
                    assert(final(self)@.users =~= old(self)@.users.remove(user_id));
                }
            },
        }
    }

    /// Registers a mail token. Adding a member again changes nothing.
    pub fn add_token(&mut self, token: String)
        requires
            old(self).wf(),
        ensures
            final(self).wf(),
            final(self)@.tokens == old(self)@.tokens.insert(token@),
            final(self)@.admin == old(self)@.admin,
            final(self)@.users == old(self)@.users,
            final(self).users_seq() == old(self).users_seq(),
    {
        let found = self.find_token(&token);
        match found {
            Some(_) => {
                proof {
                    assert(old(self)@.tokens.contains(token@));
                    assert(final(self)@.tokens =~= old(self)@.tokens.insert(token@));
                }
            },
            None => {
                self.mail_tokens.push(token);
                proof {
                    let olds = old(self).tokens_seq();
                    let news = self.tokens_seq();
                    assert(news =~= olds.push(token@));
                    assert forall|a: Seq<char>| news.to_set().contains(a) <==> olds.to_set().insert(
                        token@,
                    ).contains(a) by {
                        if news.contains(a) {
                            let i = choose|i: int| 0 <= i < news.len() && news[i] == a;
                            if i < olds.len() {
                                assert(olds[i] == a);
                            }
                        }
                        if olds.contains(a) {
                            let i = choose|i: int| 0 <= i < olds.len() && olds[i] == a;
                            assert(news[i] == a);
                        }
                        if a == token@ {
                            assert(news[news.len() - 1] == a);
                        }
                    }
                    assert(news.to_set() =~= olds.to_set().insert(token@));
                    assert(self.users_seq() =~= old(self).users_seq());
                }
            },
        }
    }

    /// Withdraws a mail token. Removing an absent member changes nothing.
    pub fn del_token(&mut self, token: String)
        requires
            old(self).wf(),
        ensures
            final(self).wf(),
            final(self)@.tokens == old(self)@.tokens.remove(token@),
            final(self)@.admin == old(self)@.admin,
            final(self)@.users == old(self)@.users,
            final(self).users_seq() == old(self).users_seq(),
    {
        let found = self.find_token(&token);
        match found {
            Some(i) => {
                self.mail_tokens.remove(i);
                proof {
                    let olds = old(self).tokens_seq();
                    let news = self.tokens_seq();
                    assert(news =~= olds.subrange(0, i as int) + olds.subrange(
                        i + 1,
                        olds.len() as int,
                    ));
                    assert forall|a: Seq<char>| news.to_set().contains(a) <==> olds.to_set().remove(
                        token@,
                    ).contains(a) by {
                        if news.contains(a) {
                            let k = choose|k: int| 0 <= k < news.len() && news[k] == a;
                            if k < i {
                                assert(olds[k] == a);
                                assert(a != token@);
                            } else {
                                assert(olds[k + 1] == a);
                                assert(a != token@);
                            }
                        }
                        if olds.contains(a) && a != token@ {
                            let k = choose|k: int| 0 <= k < olds.len() && olds[k] == a;
                            if k < i {
                                assert(news[k] == a);
                            } else {
                                assert(k != i);
                                assert(news[k - 1] == a);
                            }
                        }
                    }
                    assert(news.to_set() =~= olds.to_set().remove(token@));
                    assert(self.users_seq() =~= old(self).users_seq());
                }
            },
            None => {
                proof {
                    assert(!old(self)@.tokens.contains(token@));
                    assert(final(self)@.tokens =~= old(self)@.tokens.remove(token@));
                }
            },
        }
    }

    /// Whether the chat identity is on the allow-list.
    pub fn check_user(&self, user_id: i64) -> (r: bool)
        ensures
            r == self@.users.contains(user_id),
    {
        let found = self.find_user(user_id);
        match found {
            Some(_) => true,
            None => false,
        }
    }

    /// Whether the mail token is a registered capability.
    pub fn check_token(&self, token: String) -> (r: bool)
        ensures
            r == self@.tokens.contains(token@),
    {
        let found = self.find_token(&token);
        match found {
            Some(_) => true,
            None => false,
        }
    }

    /// Installs a new administrator identity.
    pub fn set_admin(&mut self, admin_id: i64)
        requires
            old(self).wf(),
        ensures
            final(self).wf(),
            final(self)@.admin == admin_id,
            final(self)@.users == old(self)@.users,
            final(self)@.tokens == old(self)@.tokens,
            final(self).users_seq() == old(self).users_seq(),
            final(self).tokens_seq() == old(self).tokens_seq(),
    {
        self.admin = admin_id;
        proof {
            assert(final(self).tokens_seq() =~= old(self).tokens_seq());
        }
    }

    /// The administrator identity.
    pub fn get_admin(&self) -> (r: i64)
        ensures
            r == self@.admin,
    {
        self.admin
    }

    /// The table as plain vectors, in stored order.
    pub fn vectorize(&self) -> (r: Users)
        ensures
            r.users@ == self.users_seq(),
            r.admin == self@.admin,
            r.mail_tokens@.len() == self.tokens_seq().len(),
            forall|i: int|
                0 <= i < r.mail_tokens@.len() ==> #[trigger] r.mail_tokens@[i]@
                    == self.tokens_seq()[i],
    {
        let mut users: Vec<i64> = Vec::new();
        let nu: usize = self.users.len();
        let mut i: usize = 0;
        while i < nu
            invariant
                0 <= i <= nu,
                nu == self.users@.len(),
                users@ == self.users@.subrange(0, i as int),
            decreases nu - i,
        {
            users.push(self.users[i]);
            proof {
                assert(users@ =~= self.users@.subrange(0, i + 1));
            }
            i = i + 1;
        }
        let mut mail_tokens: Vec<String> = Vec::new();
        let nt: usize = self.mail_tokens.len();
        let mut j: usize = 0;
        while j < nt
            invariant
                0 <= j <= nt,
                nt == self.mail_tokens@.len(),
                mail_tokens@.len() == j,
                forall|k: int|
                    0 <= k < j ==> #[trigger] mail_tokens@[k]@ == self.mail_tokens@[k]@,
            decreases nt - j,
        {
            mail_tokens.push(self.mail_tokens[j].clone());
            j = j + 1;
        }
        proof {
            assert(users@ =~= self.users_seq());
        }
        Users { users, admin: self.admin, mail_tokens }
    }

    /// Builds a table from plain vectors, discarding duplicates.
    pub fn from_users(data: &Users) -> (t: UsersTable)
        ensures
            t.wf(),
            t@.users == data.users@.to_set(),
            t@.admin == data.admin,
            t@.tokens == Seq::new(data.mail_tokens@.len(), |i: int| data.mail_tokens@[i]@).to_set(),
    {
        let mut t = UsersTable::new(data.admin);
        let nu: usize = data.users.len();
        let mut i: usize = 0;
        while i < nu
            invariant
                0 <= i <= nu,
                nu == data.users@.len(),
                t.wf(),
                t@.admin == data.admin,
                t@.users == data.users@.subrange(0, i as int).to_set(),
                t@.tokens == Set::<Seq<char>>::empty(),
            decreases nu - i,
        {
            t.add_user(data.users[i]);
            proof {
                let pre = data.users@.subrange(0, i as int);
                let post = data.users@.subrange(0, i + 1);
                assert(post.drop_last() =~= pre);
                assert(post.last() == data.users@[i as int]);
                assert(post.to_set() =~= pre.to_set().insert(data.users@[i as int])) by {
                    assert forall|a: i64| post.to_set().contains(a) <==> pre.to_set().insert(
                        data.users@[i as int],
                    ).contains(a) by {
                        if post.contains(a) {
                            let k = choose|k: int| 0 <= k < post.len() && post[k] == a;
                            if k < pre.len() {
                                assert(pre[k] == a);
                            }
                        }
                        if pre.contains(a) {
                            let k = choose|k: int| 0 <= k < pre.len() && pre[k] == a;
                            assert(post[k] == a);
                        }
                        if a == data.users@[i as int] {
                            assert(post[post.len() - 1] == a);
                        }
                    }
                }
            }
            i = i + 1;
        }
        proof {
            assert(data.users@.subrange(0, nu as int) =~= data.users@);
        }
        let ghost tokens_view = Seq::new(data.mail_tokens@.len(), |i: int| data.mail_tokens@[i]@);
        let nt: usize = data.mail_tokens.len();
        let mut j: usize = 0;
        while j < nt
            invariant
                0 <= j <= nt,
                nt == data.mail_tokens@.len(),
                tokens_view == Seq::new(
                    data.mail_tokens@.len(),
                    |i: int| data.mail_tokens@[i]@,
                ),
                t.wf(),
                t@.admin == data.admin,
                t@.users == data.users@.to_set(),
                t@.tokens == tokens_view.subrange(0, j as int).to_set(),
            decreases nt - j,
        {
            t.add_token(data.mail_tokens[j].clone());
            proof {
                let pre = tokens_view.subrange(0, j as int);
                let post = tokens_view.subrange(0, j + 1);
                assert(post.drop_last() =~= pre);
                assert(post.last() == tokens_view[j as int]);
                assert(post.to_set() =~= pre.to_set().insert(tokens_view[j as int])) by {
                    assert forall|a: Seq<char>| post.to_set().contains(a) <==> pre.to_set().insert(
                        tokens_view[j as int],
                    ).contains(a) by {
                        if post.contains(a) {
                            let k = choose|k: int| 0 <= k < post.len() && post[k] == a;
                            if k < pre.len() {
                                assert(pre[k] == a);
                            }
                        }
                        if pre.contains(a) {
                            let k = choose|k: int| 0 <= k < pre.len() && pre[k] == a;
                            assert(post[k] == a);
                        }
                        if a == tokens_view[j as int] {
                            assert(post[post.len() - 1] == a);
                        }
                    }
                }
            }
            j = j + 1;
        }
        proof {
            assert(tokens_view.subrange(0, nt as int) =~= tokens_view);
        }
        t
    }
}

/// A token that was added and then removed is no longer valid; re-adding it
/// restores validity; and adding a token that is already present changes
/// nothing (no duplicates, no error).
pub proof fn lemma_token_lifecycle(v: AccessView, t: Seq<char>)
    ensures
        !v.tokens.insert(t).remove(t).contains(t),
        v.tokens.insert(t).remove(t).insert(t).contains(t),
        v.tokens.contains(t) ==> v.tokens.insert(t) == v.tokens,
{
    if v.tokens.contains(t) {
        assert(v.tokens.insert(t) =~= v.tokens);
    }
}

/// An identity just added is authorized, and stays authorized under any later
/// mutation that is not its own removal; only removal revokes it.
pub proof fn lemma_user_authorization(v: AccessView, u: i64, w: i64, t: Seq<char>)
    ensures
        v.users.insert(u).contains(u),
        !v.users.remove(u).contains(u),
        w != u ==> v.users.insert(u).insert(w).contains(u),
        w != u ==> v.users.insert(u).remove(w).contains(u),
{
}

} // verus!
