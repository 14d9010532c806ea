//! The tokens that users and servers authenticate with.

use vstd::prelude::*;

use crate::uuids::{push_simple, random_uuid, simple};

verus! {

/// A user that may administrate the controller.
#[derive(Debug)]
pub struct AuthUser {
    pub username: String,
    pub token: String,
}

/// A server started by the controller, with its token.
#[derive(Debug)]
pub struct AuthServer {
    pub server: u128,
    pub token: String,
}

/// A user as it is stored on disk.
#[derive(Debug)]
pub struct StoredUser {
    pub token: String,
}

/// The name of the administrator created when there is no user.
pub open spec fn default_admin_username() -> Seq<char> {
    "admin"@
}

/// The code of the lower case of an ASCII letter; the code of any other
/// character is its own.
pub open spec fn ascii_lower(c: char) -> u32 {
    if 'A' <= c && c <= 'Z' {
        ((c as u32) + 32) as u32
    } else {
        c as u32
    }
}

/// The texts are equal when ASCII letters are compared without case.
pub open spec fn eq_ignore_ascii_case(a: Seq<char>, b: Seq<char>) -> bool {
    a.len() == b.len() && forall|i: int| 0 <= i < a.len() ==> ascii_lower(a[i]) == ascii_lower(b[i])
}

/// A token: the prefix `actl_` and the simple forms of two uuids.
pub open spec fn is_token(t: Seq<char>) -> bool {
    exists|a: u128, b: u128| t == "actl_"@ + simple(a) + simple(b)
}

fn lower_char(c: char) -> (r: u32)
    ensures
        r == ascii_lower(c),
{
    if 'A' <= c && c <= 'Z' {
        (c as u32) + 32
    } else {
        c as u32
    }
}

/// Whether the texts are equal when ASCII letters are compared without case.
pub fn same_ignoring_ascii_case(a: &str, b: &str) -> (r: bool)
    ensures
        r == eq_ignore_ascii_case(a@, b@),
{
    let n = a.unicode_len();
    if n != b.unicode_len() {
        return false;
    }
    let mut i: usize = 0;
    while i < n
        invariant
            n == a@.len(),
            n == b@.len(),
            0 <= i <= n,
            forall|k: int| 0 <= k < i ==> ascii_lower(a@[k]) == ascii_lower(b@[k]),
        decreases n - i,
    {
        if lower_char(a.get_char(i)) != lower_char(b.get_char(i)) {
            return false;
        }
        i = i + 1;
    }
    true
}

/// The user at place `k` is the first with the token.
pub open spec fn first_user_token(s: Seq<AuthUser>, token: Seq<char>, k: int) -> bool {
    &&& 0 <= k < s.len()
    &&& s[k].token@ == token
    &&& forall|m: int| 0 <= m < k ==> #[trigger] s[m].token@ != token
}

/// The server at place `k` is the first with the token.
pub open spec fn first_server_token(s: Seq<AuthServer>, token: Seq<char>, k: int) -> bool {
    &&& 0 <= k < s.len()
    &&& s[k].token@ == token
    &&& forall|m: int| 0 <= m < k ==> #[trigger] s[m].token@ != token
}

/// The tokens are distinct.
pub open spec fn user_tokens_distinct(s: Seq<AuthUser>) -> bool {
    forall|i: int, j: int| 0 <= i < j < s.len() ==> s[i].token@ != s[j].token@
}

/// The tokens are distinct.
pub open spec fn server_tokens_distinct(s: Seq<AuthServer>) -> bool {
    forall|i: int, j: int| 0 <= i < j < s.len() ==> s[i].token@ != s[j].token@
}

/// The users taken from the stored pairs of name and user, in order: a
/// user whose name is taken, without regard to ASCII case, is left out, and
/// one with the token of a user taken before replaces that one.
pub open spec fn loaded(stored: Seq<(String, StoredUser)>) -> Seq<AuthUser>
    decreases stored.len(),
{
    if stored.len() == 0 {
        Seq::empty()
    } else {
        let prev = loaded(stored.drop_last());
        let last = stored.last();
        if name_taken(prev, last.0@) {
            prev
        } else {
            prev.filter(|u: AuthUser| u.token@ != last.1.token@).push(
                AuthUser { username: last.0, token: last.1.token },
            )
        }
    }
}

/// The users and servers, each found by its token.
pub struct Auth {
    users: Vec<AuthUser>,
    servers: Vec<AuthServer>,
}

/// Some user's name equals the name without regard to ASCII case.
pub open spec fn name_taken(users: Seq<AuthUser>, name: Seq<char>) -> bool {
    exists|k: int| 0 <= k < users.len() && eq_ignore_ascii_case(users[k].username@, name)
}

/// No two of the users have names that are equal ignoring ASCII case.
pub open spec fn names_apart(users: Seq<AuthUser>) -> bool {
    forall|i: int, j: int|
        0 <= i < j < users.len() ==> !eq_ignore_ascii_case(
            #[trigger] users[i].username@,
            #[trigger] users[j].username@,
        )
}

/// Filtering keeps the names apart.
proof fn lemma_filter_keeps_names_apart(s: Seq<AuthUser>, p: spec_fn(AuthUser) -> bool)
    requires
        names_apart(s),
    ensures
        names_apart(s.filter(p)),
    decreases s.len(),
{
    reveal(Seq::filter);
    if s.len() > 0 {
        let t = s.drop_last();
        assert(names_apart(t)) by {
            assert forall|i: int, j: int| 0 <= i < j < t.len() implies !eq_ignore_ascii_case(
                #[trigger] t[i].username@,
                #[trigger] t[j].username@,
            ) by {
                assert(t[i] == s[i] && t[j] == s[j]);
            }
        }
        lemma_filter_keeps_names_apart(t, p);
        crate::facts::lemma_filter_subset(t, p);
        let f = t.filter(p);
        if p(s.last()) {
            let g = f.push(s.last());
            assert forall|i: int, j: int| 0 <= i < j < g.len() implies !eq_ignore_ascii_case(
                #[trigger] g[i].username@,
                #[trigger] g[j].username@,
            ) by {
                if j == f.len() {
                    let k = choose|k: int| 0 <= k < t.len() && t[k] == #[trigger] f[i];
                    assert(s[k] == t[k]);
                    assert(g[i] == f[i]);
                    assert(g[j] == s[s.len() - 1]);
                } else {
                    assert(g[i] == f[i] && g[j] == f[j]);
                }
            }
            assert(s.filter(p) == g);
        }
    }
}

/// The users loaded from storage have names that differ ignoring ASCII
/// case: a stored user whose name is taken, ignoring case, is skipped.
pub proof fn law_loaded_names_apart(stored: Seq<(String, StoredUser)>)
    ensures
        names_apart(loaded(stored)),
    decreases stored.len(),
{
    if stored.len() > 0 {
        let rest = stored.drop_last();
        law_loaded_names_apart(rest);
        let prev = loaded(rest);
        let last = stored.last();
        if !name_taken(prev, last.0@) {
            let p = |u: AuthUser| u.token@ != last.1.token@;
            lemma_filter_keeps_names_apart(prev, p);
            crate::facts::lemma_filter_subset(prev, p);
            let f = prev.filter(p);
            let g = f.push(AuthUser { username: last.0, token: last.1.token });
            assert forall|i: int, j: int| 0 <= i < j < g.len() implies !eq_ignore_ascii_case(
                #[trigger] g[i].username@,
                #[trigger] g[j].username@,
            ) by {
                if j == f.len() {
                    let k = choose|k: int| 0 <= k < prev.len() && prev[k] == #[trigger] f[i];
                    assert(g[i] == f[i]);
                    assert(!eq_ignore_ascii_case(prev[k].username@, last.0@));
                } else {
                    assert(g[i] == f[i] && g[j] == f[j]);
                }
            }
            assert(loaded(stored) == g);
        }
    }
}

impl Auth {
    pub closed spec fn users(&self) -> Seq<AuthUser> {
        self.users@
    }

    pub closed spec fn servers(&self) -> Seq<AuthServer> {
        self.servers@
    }

    pub closed spec fn wf(&self) -> bool {
        &&& user_tokens_distinct(self.users@)
        &&& server_tokens_distinct(self.servers@)
    }

    /// No users and no servers.
    pub fn empty() -> (r: Self)
        ensures
            r.wf(),
            r.users() == Seq::<AuthUser>::empty(),
            r.servers() == Seq::<AuthServer>::empty(),
    {
        Auth { users: Vec::new(), servers: Vec::new() }
    }

    /// The users read from disk, as pairs of name and token, in the order
    /// read. A user whose name equals, without regard to ASCII case, that of
    /// a user taken before is left out; a user with the token of a user taken
    /// before replaces that one. When no user is left, an administrator named
    /// `admin` is made with a fresh token, and returned too.
    pub fn load_all(stored: Vec<(String, StoredUser)>) -> (r: (Self, Option<AuthUser>))
        ensures
            r.0.wf(),
            r.0.servers() == Seq::<AuthServer>::empty(),
            loaded(stored@).len() > 0 ==> r.0.users() == loaded(stored@) && r.1 is None,
            loaded(stored@).len() == 0 ==> (r.1 matches Some(admin) && admin.username@
                == default_admin_username() && is_token(admin.token@) && r.0.users() == seq![
                admin,
            ]),
    {
        let mut auth = Auth::empty();
        let ghost all = stored@;
        let mut rest = crate::facts::reversed(stored);
        let mut i: usize = 0;
        proof {
            assert(rest@ =~= all.skip(0).reverse());
            assert(all.len() == rest.len());
            assert(all.take(0) =~= Seq::<(String, StoredUser)>::empty());
        }
        while rest.len() > 0
            invariant
                auth.wf(),
                auth.servers() == Seq::<AuthServer>::empty(),
                rest@ == all.skip(i as int).reverse(),
                i + rest@.len() == all.len(),
                all.len() <= usize::MAX,
                auth.users() == loaded(all.take(i as int)),
            decreases rest@.len(),
        {
            let (name, user) = rest.pop().unwrap();
            proof {
                assert((name, user) == all[i as int]);
                assert(rest@ =~= all.skip(i + 1).reverse());
                assert(all.take(i + 1).drop_last() =~= all.take(i as int));
                assert(all.take(i + 1).last() == all[i as int]);
            }
            let taken = auth.has_user_named(name.as_str());
            if !taken {
                auth.insert_user(AuthUser { username: name, token: user.token });
            }
            i = i + 1;
        }
        proof {
            assert(all.take(all.len() as int) =~= all);
        }
        if auth.users.len() == 0 {
            let token = Self::generate_token();
            let admin = auth.register_user("admin", token);
            proof {
                reveal_strlit("admin");
                assert(auth.users() =~= seq![admin]);
            }
            (auth, Some(admin))
        } else {
            (auth, None)
        }
    }

    /// Whether a user with this name, without regard to ASCII case, exists.
    pub fn has_user_named(&self, name: &str) -> (r: bool)
        ensures
            r == name_taken(self.users(), name@),
    {
        let mut k: usize = 0;
        while k < self.users.len()
            invariant
                0 <= k <= self.users@.len(),
                forall|m: int|
                    0 <= m < k ==> !eq_ignore_ascii_case(#[trigger] self.users@[m].username@, name@),
            decreases self.users@.len() - k,
        {
            if same_ignoring_ascii_case(self.users[k].username.as_str(), name) {
                return true;
            }
            k = k + 1;
        }
        false
    }

    /// Adds the user; a user with the same token is replaced.
    pub fn insert_user(&mut self, user: AuthUser)
        requires
            old(self).wf(),
        ensures
            final(self).wf(),
            final(self).servers() == old(self).servers(),
            final(self).users() == old(self).users().filter(
                |u: AuthUser| u.token@ != user.token@,
            ).push(user),
    {
        let ghost before = self.users@;
        let ghost pred = |u: AuthUser| u.token@ != user.token@;
        let mut all = Vec::new();
        std::mem::swap(&mut all, &mut self.users);
        let mut rest = crate::facts::reversed(all);
        let mut kept: Vec<AuthUser> = Vec::new();
        let mut i: usize = 0;
        proof {
            assert(rest@ =~= before.skip(0).reverse());
            assert(before.len() == rest.len());
        }
        while rest.len() > 0
            invariant
                rest@ == before.skip(i as int).reverse(),
                i + rest@.len() == before.len(),
                before.len() <= usize::MAX,
                pred == (|u: AuthUser| u.token@ != user.token@),
                kept@ == before.take(i as int).filter(pred),
                self.servers@ == old(self).servers@,
            decreases rest@.len(),
        {
            let u = rest.pop().unwrap();
            proof {
                assert(u == before[i as int]);
                crate::facts::lemma_filter_take_succ(before, pred, i as int);
                assert(rest@ =~= before.skip(i + 1).reverse());
            }
            if u.token != user.token {
                kept.push(u);
            }
            i = i + 1;
        }
        proof {
            assert(before.take(before.len() as int) =~= before);
            crate::facts::lemma_filter_subset(before, pred);
            let f = before.filter(pred);
            assert forall|a: int, b: int| 0 <= a < b < f.len() implies f[a].token@ != f[b].token@ by {
                lemma_filter_tokens(before, pred);
            }
            assert forall|a: int| 0 <= a < f.len() implies f[a].token@ != user.token@ by {
                before.lemma_filter_pred(pred, a);
            }
        }
        kept.push(user);
        self.users = kept;
    }

    /// The user with the token.
    pub fn get_user(&self, token: &str) -> (r: Option<&AuthUser>)
        ensures
            r is None ==> forall|k: int|
                0 <= k < self.users().len() ==> #[trigger] self.users()[k].token@ != token@,
            r matches Some(u) ==> exists|k: int|
                #[trigger] first_user_token(self.users(), token@, k) && self.users()[k] == *u,
    {
        let mut k: usize = 0;
        while k < self.users.len()
            invariant
                0 <= k <= self.users@.len(),
                forall|m: int| 0 <= m < k ==> #[trigger] self.users@[m].token@ != token@,
            decreases self.users@.len() - k,
        {
            if crate::text::same_text(&self.users[k].token, token) {
                proof {
                    assert(self.users()[k as int] == self.users@[k as int]);
                    assert(first_user_token(self.users(), token@, k as int));
                }
                return Some(&self.users[k]);
            }
            k = k + 1;
        }
        None
    }

    /// The server with the token.
    pub fn get_server(&self, token: &str) -> (r: Option<&AuthServer>)
        ensures
            r is None ==> forall|k: int|
                0 <= k < self.servers().len() ==> #[trigger] self.servers()[k].token@ != token@,
            r matches Some(s) ==> exists|k: int|
                #[trigger] first_server_token(self.servers(), token@, k) && self.servers()[k] == *s,
    {
        let mut k: usize = 0;
        while k < self.servers.len()
            invariant
                0 <= k <= self.servers@.len(),
                forall|m: int| 0 <= m < k ==> #[trigger] self.servers@[m].token@ != token@,
            decreases self.servers@.len() - k,
        {
            if crate::text::same_text(&self.servers[k].token, token) {
                proof {
                    assert(self.servers()[k as int] == self.servers@[k as int]);
                    assert(first_server_token(self.servers(), token@, k as int));
                }
                return Some(&self.servers[k]);
            }
            k = k + 1;
        }
        None
    }

    /// A fresh token: `actl_` and the simple forms of two random uuids.
    pub fn generate_token() -> (r: String)
        ensures
            is_token(r@),
    {
        let mut token = "actl_".to_owned();
        let a = random_uuid();
        let b = random_uuid();
        push_simple(&mut token, a);
        push_simple(&mut token, b);
        token
    }

    /// Gives the server a fresh token and returns it; a server entry with
    /// the same token is replaced.
    pub fn register_server(&mut self, server: u128) -> (token: String)
        requires
            old(self).wf(),
        ensures
            final(self).wf(),
            is_token(token@),
            final(self).users() == old(self).users(),
            final(self).servers() == old(self).servers().filter(
                |s: AuthServer| s.token@ != token@,
            ).push(AuthServer { server, token }),
    {
        let token = Self::generate_token();
        self.insert_server(AuthServer { server, token: token.clone() });
        token
    }

    /// A token read back after it was handed out names the server it was
    /// handed to: once a server is registered with a token, the first entry
    /// with that token is the server's.
    pub proof fn law_token_names_registered_server(
        a0: Auth,
        a1: Auth,
        server: u128,
        token: String,
    )
        requires
            a1.servers() == a0.servers().filter(|s: AuthServer| s.token@ != token@).push(
                AuthServer { server, token },
            ),
        ensures
            exists|k: int| #[trigger] first_server_token(a1.servers(), token@, k),
            forall|k: int|
                #[trigger] first_server_token(a1.servers(), token@, k) ==> a1.servers()[k].server
                    == server,
    {
        let f = a0.servers().filter(|s: AuthServer| s.token@ != token@);
        let last = a1.servers().len() - 1;
        assert forall|m: int| 0 <= m < last implies #[trigger] a1.servers()[m].token@ != token@ by {
            assert(a1.servers()[m] == f[m]);
            a0.servers().lemma_filter_pred(|s: AuthServer| s.token@ != token@, m);
        }
        assert(first_server_token(a1.servers(), token@, last));
        assert forall|k: int| #[trigger] first_server_token(a1.servers(), token@, k) implies k
            == last by {
            if k < last {
                assert(a1.servers()[k].token@ != token@);
            }
        }
    }

    /// A server that was unregistered has no token left.
    /// Registering a user under a token no user has makes one user more,
    /// found under that token.
    pub proof fn law_new_user_counts_one_more(
        a0: Auth,
        a1: Auth,
        username: Seq<char>,
        token: String,
        r: AuthUser,
    )
        requires
            forall|k: int| 0 <= k < a0.users().len() ==> #[trigger] a0.users()[k].token@ != token@,
            r.username@ == username,
            r.token == token,
            a1.users() == a0.users().filter(|u: AuthUser| u.token@ != token@).push(
                AuthUser { username: r.username, token: r.token },
            ),
        ensures
            a1.users().len() == a0.users().len() + 1,
            a1.users().last().username@ == username,
            a1.users().last().token == token,
    {
        crate::facts::lemma_filter_keeps_all(a0.users(), |u: AuthUser| u.token@ != token@);
    }

    pub proof fn law_unregistered_server_has_no_token(a0: Auth, a1: Auth, server: u128)
        requires
            a1.servers() == a0.servers().filter(|s: AuthServer| s.server != server),
        ensures
            forall|k: int| 0 <= k < a1.servers().len() ==> #[trigger] a1.servers()[k].server != server,
    {
        assert forall|k: int| 0 <= k < a1.servers().len() implies #[trigger] a1.servers()[k].server
            != server by {
            a0.servers().lemma_filter_pred(|s: AuthServer| s.server != server, k);
        }
    }

    fn insert_server(&mut self, entry: AuthServer)
        requires
            old(self).wf(),
        ensures
            final(self).wf(),
            final(self).users() == old(self).users(),
            final(self).servers() == old(self).servers().filter(
                |s: AuthServer| s.token@ != entry.token@,
            ).push(entry),
    {
        let ghost before = self.servers@;
        let ghost pred = |s: AuthServer| s.token@ != entry.token@;
        let mut all = Vec::new();
        std::mem::swap(&mut all, &mut self.servers);
        let mut rest = crate::facts::reversed(all);
        let mut kept: Vec<AuthServer> = Vec::new();
        let mut i: usize = 0;
        proof {
            assert(rest@ =~= before.skip(0).reverse());
            assert(before.len() == rest.len());
        }
        while rest.len() > 0
            invariant
                rest@ == before.skip(i as int).reverse(),
                i + rest@.len() == before.len(),
                before.len() <= usize::MAX,
                pred == (|s: AuthServer| s.token@ != entry.token@),
                kept@ == before.take(i as int).filter(pred),
                self.users@ == old(self).users@,
            decreases rest@.len(),
        {
            let s = rest.pop().unwrap();
            proof {
                assert(s == before[i as int]);
                crate::facts::lemma_filter_take_succ(before, pred, i as int);
                assert(rest@ =~= before.skip(i + 1).reverse());
            }
            if s.token != entry.token {
                kept.push(s);
            }
            i = i + 1;
        }
        proof {
            assert(before.take(before.len() as int) =~= before);
            let f = before.filter(pred);
            assert forall|a: int, b: int| 0 <= a < b < f.len() implies f[a].token@ != f[b].token@ by {
                lemma_filter_server_tokens(before, pred);
            }
            assert forall|a: int| 0 <= a < f.len() implies f[a].token@ != entry.token@ by {
                before.lemma_filter_pred(pred, a);
            }
        }
        kept.push(entry);
        self.servers = kept;
    }

    /// Takes away the tokens of the server.
    pub fn unregister_server(&mut self, server: u128)
        requires
            old(self).wf(),
        ensures
            final(self).wf(),
            final(self).users() == old(self).users(),
            final(self).servers() == old(self).servers().filter(
                |s: AuthServer| s.server != server,
            ),
    {
        let ghost before = self.servers@;
        let ghost pred = |s: AuthServer| s.server != server;
        let mut all = Vec::new();
        std::mem::swap(&mut all, &mut self.servers);
        let mut rest = crate::facts::reversed(all);
        let mut kept: Vec<AuthServer> = Vec::new();
        let mut i: usize = 0;
        proof {
            assert(rest@ =~= before.skip(0).reverse());
            assert(before.len() == rest.len());
        }
        while rest.len() > 0
            invariant
                rest@ == before.skip(i as int).reverse(),
                i + rest@.len() == before.len(),
                before.len() <= usize::MAX,
                pred == (|s: AuthServer| s.server != server),
                kept@ == before.take(i as int).filter(pred),
                self.users@ == old(self).users@,
            decreases rest@.len(),
        {
            let s = rest.pop().unwrap();
            proof {
                assert(s == before[i as int]);
                crate::facts::lemma_filter_take_succ(before, pred, i as int);
                assert(rest@ =~= before.skip(i + 1).reverse());
            }
            if s.server != server {
                kept.push(s);
            }
            i = i + 1;
        }
        proof {
            assert(before.take(before.len() as int) =~= before);
            let f = before.filter(pred);
            assert forall|a: int, b: int| 0 <= a < b < f.len() implies f[a].token@ != f[b].token@ by {
                lemma_filter_server_tokens(before, pred);
            }
        }
        self.servers = kept;
    }

    /// Adds a user with the given name and token, as made by
    /// `generate_token`; a user with the same token is replaced.
    pub fn register_user(&mut self, username: &str, token: String) -> (r: AuthUser)
        requires
            old(self).wf(),
        ensures
            final(self).wf(),
            r.username@ == username@,
            r.token == token,
            final(self).servers() == old(self).servers(),
            final(self).users() == old(self).users().filter(
                |u: AuthUser| u.token@ != token@,
            ).push(AuthUser { username: r.username, token: r.token }),
    {
        let user = AuthUser { username: username.to_owned(), token };
        let r = AuthUser { username: user.username.clone(), token: user.token.clone() };
        self.insert_user(user);
        r
    }
}

/// Filtering keeps the tokens of users distinct.
proof fn lemma_filter_tokens(s: Seq<AuthUser>, p: spec_fn(AuthUser) -> bool)
    requires
        user_tokens_distinct(s),
    ensures
        user_tokens_distinct(s.filter(p)),
    decreases s.len(),
{
    reveal(Seq::filter);
    if s.len() > 0 {
        let t = s.drop_last();
        lemma_filter_tokens(t, p);
        crate::facts::lemma_filter_subset(t, p);
        let f = t.filter(p);
        if p(s.last()) {
            assert forall|i: int, j: int| 0 <= i < j < f.push(s.last()).len() implies f.push(
                s.last(),
            )[i].token@ != f.push(s.last())[j].token@ by {
                if j == f.len() {
                    let k = choose|k: int| 0 <= k < t.len() && t[k] == f[i];
                    assert(s[k] == t[k]);
                }
            }
        }
    }
}

/// Filtering keeps the tokens of servers distinct.
proof fn lemma_filter_server_tokens(s: Seq<AuthServer>, p: spec_fn(AuthServer) -> bool)
    requires
        server_tokens_distinct(s),
    ensures
        server_tokens_distinct(s.filter(p)),
    decreases s.len(),
{
    reveal(Seq::filter);
    if s.len() > 0 {
        let t = s.drop_last();
        lemma_filter_server_tokens(t, p);
        crate::facts::lemma_filter_subset(t, p);
        let f = t.filter(p);
        if p(s.last()) {
            assert forall|i: int, j: int| 0 <= i < j < f.push(s.last()).len() implies f.push(
                s.last(),
            )[i].token@ != f.push(s.last())[j].token@ by {
                if j == f.len() {
                    let k = choose|k: int| 0 <= k < t.len() && t[k] == f[i];
                    assert(s[k] == t[k]);
                }
            }
        }
    }
}

} // verus!
