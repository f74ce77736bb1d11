//! The user directory: account records keyed by identifier, looked up
//! case-insensitively by username, linked to an external identity provider,
//! plus per-user preferences.  Identity resolution itself (sessions,
//! credentials) is the surrounding process's business: the core receives a
//! typed `Identity` and never parses credentials; password hashes are opaque
//! strings computed outside.

use vstd::prelude::*;
use vstd::string::{StrSliceExecFns, StringExecFns};

use crate::StoreError;
use crate::text::{blank, eq_ci, eq_ignore_case, is_blank, lemma_eq_ci_sym, lemma_eq_ci_trans};

verus! {

/// One account row.
#[derive(Debug)]
pub struct User {
    pub id: u64,
    pub username: String,
    pub password_hash: Option<String>,
    pub provider: String,
    pub provider_id: Option<String>,
    pub bio: Option<String>,
    pub avatar_url: Option<String>,
    pub created_at: u64,
}

/// Clone an optional string, preserving the value exactly.
fn clone_opt_string(o: &Option<String>) -> (r: Option<String>)
    ensures
        r == *o,
{
    match o {
        Some(s) => Some(s.clone()),
        None => None,
    }
}

impl Clone for User {
    fn clone(&self) -> (r: Self)
        ensures
            r == *self,
    {
        User {
            id: self.id,
            username: self.username.clone(),
            password_hash: clone_opt_string(&self.password_hash),
            provider: self.provider.clone(),
            provider_id: clone_opt_string(&self.provider_id),
            bio: clone_opt_string(&self.bio),
            avatar_url: clone_opt_string(&self.avatar_url),
            created_at: self.created_at,
        }
    }
}

/// Per-user interface preferences.
#[derive(Debug)]
pub struct UserPreferences {
    pub user_id: u64,
    pub theme: String,
    pub notification_sound: bool,
    pub browser_notifications: bool,
    pub show_read_receipts: bool,
    pub show_typing_indicators: bool,
}

impl Clone for UserPreferences {
    fn clone(&self) -> (r: Self)
        ensures
            r == *self,
    {
        UserPreferences {
            user_id: self.user_id,
            theme: self.theme.clone(),
            notification_sound: self.notification_sound,
            browser_notifications: self.browser_notifications,
            show_read_receipts: self.show_read_receipts,
            show_typing_indicators: self.show_typing_indicators,
        }
    }
}

/// Why an account operation was refused.
#[derive(Clone, Copy, Debug, PartialEq, Eq, Structural)]
pub enum AuthError {
    /// The username is blank.
    InvalidUsername,
    /// The password is shorter than six characters.
    WeakPassword,
    /// Another account already holds the username (ignoring case).
    UsernameTaken,
    /// No account holds the username.
    UnknownUser,
    /// The account exists but has no password (external-provider only).
    NoPassword,
}

/// A password-login request as received from the client.
#[derive(Debug)]
pub struct LoginRequest {
    pub username: String,
    pub password: String,
}

/// A registration request as received from the client.
#[derive(Debug)]
pub struct RegisterRequest {
    pub username: String,
    pub password: String,
}

/// The resolved identity handed to the core by the external auth
/// collaborator.  `user_id` is set when the session maps directly to a local
/// account; otherwise the account is found or created from the provider
/// fields.
#[derive(Debug)]
pub struct Identity {
    pub user_id: Option<u64>,
    pub username: Option<String>,
    pub provider: String,
    pub external_id: String,
}

/// Index of the account with this identifier, if any (the last one; under
/// well-formedness there is at most one).
pub open spec fn find_user_by_id(us: Seq<User>, id: u64) -> Option<int>
    decreases us.len(),
{
    if us.len() == 0 {
        None
    } else if us.last().id == id {
        Some((us.len() - 1) as int)
    } else {
        find_user_by_id(us.drop_last(), id)
    }
}

/// What `find_user_by_id` finds.
pub proof fn lemma_find_user_by_id(us: Seq<User>, id: u64)
    ensures
        match find_user_by_id(us, id) {
            Some(i) => 0 <= i < us.len() && us[i].id == id && forall|j: int|
                i < j < us.len() ==> (#[trigger] us[j]).id != id,
            None => forall|j: int| 0 <= j < us.len() ==> (#[trigger] us[j]).id != id,
        },
    decreases us.len(),
{
    if us.len() > 0 && us.last().id != id {
        lemma_find_user_by_id(us.drop_last(), id);
        assert(forall|j: int| 0 <= j < us.len() - 1 ==> #[trigger] us[j] == us.drop_last()[j]);
    }
}

/// Index of the account whose username matches `name` ignoring case, if any.
pub open spec fn find_user_by_name(us: Seq<User>, name: Seq<char>) -> Option<int>
    decreases us.len(),
{
    if us.len() == 0 {
        None
    } else if eq_ci(us.last().username@, name) {
        Some((us.len() - 1) as int)
    } else {
        find_user_by_name(us.drop_last(), name)
    }
}

/// What `find_user_by_name` finds.
pub proof fn lemma_find_user_by_name(us: Seq<User>, name: Seq<char>)
    ensures
        match find_user_by_name(us, name) {
            Some(i) => 0 <= i < us.len() && eq_ci(us[i].username@, name) && forall|j: int|
                i < j < us.len() ==> !eq_ci((#[trigger] us[j]).username@, name),
            None => forall|j: int| 0 <= j < us.len() ==> !eq_ci((#[trigger] us[j]).username@, name),
        },
    decreases us.len(),
{
    if us.len() > 0 && !eq_ci(us.last().username@, name) {
        lemma_find_user_by_name(us.drop_last(), name);
        assert(forall|j: int| 0 <= j < us.len() - 1 ==> #[trigger] us[j] == us.drop_last()[j]);
    }
}

/// The account is bound to this provider-side identity.
pub open spec fn provider_matches(u: User, prov: Seq<char>, pid: Seq<char>) -> bool {
    u.provider@ == prov && match u.provider_id {
        Some(p) => p@ == pid,
        None => false,
    }
}

/// Index of the account bound to this provider-side identity, if any.
pub open spec fn find_user_by_provider(us: Seq<User>, prov: Seq<char>, pid: Seq<char>) -> Option<
    int,
>
    decreases us.len(),
{
    if us.len() == 0 {
        None
    } else if provider_matches(us.last(), prov, pid) {
        Some((us.len() - 1) as int)
    } else {
        find_user_by_provider(us.drop_last(), prov, pid)
    }
}

/// What `find_user_by_provider` finds.
pub proof fn lemma_find_user_by_provider(us: Seq<User>, prov: Seq<char>, pid: Seq<char>)
    ensures
        match find_user_by_provider(us, prov, pid) {
            Some(i) => 0 <= i < us.len() && provider_matches(us[i], prov, pid) && forall|j: int|
                i < j < us.len() ==> !provider_matches(#[trigger] us[j], prov, pid),
            None => forall|j: int|
                0 <= j < us.len() ==> !provider_matches(#[trigger] us[j], prov, pid),
        },
    decreases us.len(),
{
    if us.len() > 0 && !provider_matches(us.last(), prov, pid) {
        lemma_find_user_by_provider(us.drop_last(), prov, pid);
        assert(forall|j: int| 0 <= j < us.len() - 1 ==> #[trigger] us[j] == us.drop_last()[j]);
    }
}

/// Index of the preference row of a user, if any.
pub open spec fn find_prefs(ps: Seq<UserPreferences>, user_id: u64) -> Option<int>
    decreases ps.len(),
{
    if ps.len() == 0 {
        None
    } else if ps.last().user_id == user_id {
        Some((ps.len() - 1) as int)
    } else {
        find_prefs(ps.drop_last(), user_id)
    }
}

/// What `find_prefs` finds.
pub proof fn lemma_find_prefs(ps: Seq<UserPreferences>, user_id: u64)
    ensures
        match find_prefs(ps, user_id) {
            Some(i) => 0 <= i < ps.len() && ps[i].user_id == user_id && forall|j: int|
                i < j < ps.len() ==> (#[trigger] ps[j]).user_id != user_id,
            None => forall|j: int| 0 <= j < ps.len() ==> (#[trigger] ps[j]).user_id != user_id,
        },
    decreases ps.len(),
{
    if ps.len() > 0 && ps.last().user_id != user_id {
        lemma_find_prefs(ps.drop_last(), user_id);
        assert(forall|j: int| 0 <= j < ps.len() - 1 ==> #[trigger] ps[j] == ps.drop_last()[j]);
    }
}

/// The directory of accounts and their preferences.
pub struct Directory {
    pub users: Vec<User>,
    pub prefs: Vec<UserPreferences>,
    pub next_id: u64,
}

impl Directory {
    /// Well-formedness: identifiers are unique and below the allocation
    /// counter, usernames are unique ignoring case, and each user has at
    /// most one preference row.
    pub open spec fn wf(self) -> bool {
        &&& forall|i: int, j: int|
            0 <= i < j < self.users@.len() ==> (#[trigger] self.users@[i]).id
                != (#[trigger] self.users@[j]).id
        &&& forall|i: int| 0 <= i < self.users@.len() ==> (#[trigger] self.users@[i]).id < self.next_id
        &&& forall|i: int, j: int|
            0 <= i < j < self.users@.len() ==> !eq_ci(
                (#[trigger] self.users@[i]).username@,
                (#[trigger] self.users@[j]).username@,
            )
        &&& forall|i: int, j: int|
            0 <= i < j < self.prefs@.len() ==> (#[trigger] self.prefs@[i]).user_id
                != (#[trigger] self.prefs@[j]).user_id
    }

    /// An empty directory.
    pub fn new() -> (r: Directory)
        ensures
            r.wf(),
            r.users@ == Seq::<User>::empty(),
            r.prefs@ == Seq::<UserPreferences>::empty(),
            r.next_id == 0,
    {
        Directory { users: Vec::new(), prefs: Vec::new(), next_id: 0 }
    }

    /// Index of the account with this identifier, if any.
    fn index_by_id(&self, id: u64) -> (r: Option<usize>)
        ensures
            match r {
                Some(u) => find_user_by_id(self.users@, id) == Some(u as int),
                None => find_user_by_id(self.users@, id) is None,
            },
    {
        let n = self.users.len();
        let mut i: usize = n;
        while i > 0
            invariant
                n == self.users@.len(),
                0 <= i <= n,
                forall|j: int| i <= j < n ==> (#[trigger] self.users@[j]).id != id,
            decreases i,
        {
            let k = i - 1;
            if self.users[k].id == id {
                proof {
                    lemma_find_user_by_id(self.users@, id);
                    match find_user_by_id(self.users@, id) {
                        Some(x) => {
                            assert((#[trigger] self.users@[k as int]).id == id);
                            assert(x == k);
                        },
                        None => {
                            assert(self.users@[k as int].id == id);
                        },
                    }
                }
                return Some(k);
            }
            i = k;
        }
        proof {
            lemma_find_user_by_id(self.users@, id);
        }
        None
    }

    /// Index of the account with this username (ignoring case), if any.
    fn index_by_name(&self, name: &String) -> (r: Option<usize>)
        ensures
            match r {
                Some(u) => find_user_by_name(self.users@, name@) == Some(u as int),
                None => find_user_by_name(self.users@, name@) is None,
            },
    {
        let n = self.users.len();
        let mut i: usize = n;
        while i > 0
            invariant
                n == self.users@.len(),
                0 <= i <= n,
                forall|j: int| i <= j < n ==> !eq_ci((#[trigger] self.users@[j]).username@, name@),
            decreases i,
        {
            let k = i - 1;
            if eq_ignore_case(self.users[k].username.as_str(), name.as_str()) {
                proof {
                    lemma_find_user_by_name(self.users@, name@);
                    match find_user_by_name(self.users@, name@) {
                        Some(x) => {
                            assert(eq_ci((#[trigger] self.users@[k as int]).username@, name@));
                            assert(x == k);
                        },
                        None => {
                            assert(eq_ci(self.users@[k as int].username@, name@));
                        },
                    }
                }
                return Some(k);
            }
            i = k;
        }
        proof {
            lemma_find_user_by_name(self.users@, name@);
        }
        None
    }

    /// Index of the account bound to this provider identity, if any.
    fn index_by_provider(&self, provider: &String, pid: &String) -> (r: Option<usize>)
        ensures
            match r {
                Some(u) => find_user_by_provider(self.users@, provider@, pid@) == Some(u as int),
                None => find_user_by_provider(self.users@, provider@, pid@) is None,
            },
    {
        let n = self.users.len();
        let mut i: usize = n;
        while i > 0
            invariant
                n == self.users@.len(),
                0 <= i <= n,
                forall|j: int|
                    i <= j < n ==> !provider_matches(#[trigger] self.users@[j], provider@, pid@),
            decreases i,
        {
            let k = i - 1;
            let here = if self.users[k].provider == *provider {
                match &self.users[k].provider_id {
                    Some(p) => *p == *pid,
                    None => false,
                }
            } else {
                false
            };
            if here {
                proof {
                    lemma_find_user_by_provider(self.users@, provider@, pid@);
                    match find_user_by_provider(self.users@, provider@, pid@) {
                        Some(x) => {
                            assert(provider_matches(
                                #[trigger] self.users@[k as int],
                                provider@,
                                pid@,
                            ));
                            assert(x == k);
                        },
                        None => {
                            assert(provider_matches(self.users@[k as int], provider@, pid@));
                        },
                    }
                }
                return Some(k);
            }
            i = k;
        }
        proof {
            lemma_find_user_by_provider(self.users@, provider@, pid@);
        }
        None
    }

    /// The account with this identifier, if any.
    pub fn get_user_by_id(&self, user_id: u64) -> (r: Option<User>)
        ensures
            match find_user_by_id(self.users@, user_id) {
                Some(i) => r == Some(self.users@[i]),
                None => r is None,
            },
    {
        proof {
            lemma_find_user_by_id(self.users@, user_id);
        }
        match self.index_by_id(user_id) {
            Some(i) => Some(self.users[i].clone()),
            None => None,
        }
    }

    /// The account with this username (ignoring case), if any.
    pub fn get_user_by_username(&self, username: &String) -> (r: Option<User>)
        ensures
            match find_user_by_name(self.users@, username@) {
                Some(i) => r == Some(self.users@[i]),
                None => r is None,
            },
    {
        proof {
            lemma_find_user_by_name(self.users@, username@);
        }
        match self.index_by_name(username) {
            Some(i) => Some(self.users[i].clone()),
            None => None,
        }
    }

    /// All accounts, newest first (reverse registration order).
    pub fn get_all_users(&self) -> (r: Vec<User>)
        ensures
            r@.len() == self.users@.len(),
            forall|j: int|
                0 <= j < r@.len() ==> #[trigger] r@[j] == self.users@[self.users@.len() - 1 - j],
    {
        let n = self.users.len();
        let mut out: Vec<User> = Vec::new();
        let mut i: usize = n;
        while i > 0
            invariant
                n == self.users@.len(),
                0 <= i <= n,
                out@.len() == n - i,
                forall|j: int| 0 <= j < out@.len() ==> #[trigger] out@[j] == self.users@[n - 1 - j],
            decreases i,
        {
            let k = i - 1;
            out.push(self.users[k].clone());
            i = k;
        }
        out
    }

    /// Create a local (password) account.  The username must be non-blank
    /// and free; the hash was computed outside and is stored opaquely.
    pub fn create_local_user(&mut self, username: String, password_hash: String, now: u64) -> (r:
        Result<User, AuthError>)
        requires
            old(self).wf(),
            old(self).next_id < u64::MAX,
        ensures
            final(self).wf(),
            final(self).prefs == old(self).prefs,
            blank(username@) ==> r == Err::<User, AuthError>(AuthError::InvalidUsername)
                && *final(self) == *old(self),
            !blank(username@) && find_user_by_name(old(self).users@, username@) is Some ==> r
                == Err::<User, AuthError>(AuthError::UsernameTaken) && *final(self) == *old(self),
            !blank(username@) && find_user_by_name(old(self).users@, username@) is None ==> {
                &&& final(self).users@.len() == old(self).users@.len() + 1
                &&& forall|j: int|
                    0 <= j < old(self).users@.len() ==> #[trigger] final(self).users@[j]
                        == old(self).users@[j]
                &&& ({
                    let u = final(self).users@.last();
                    u.id == old(self).next_id && u.username == username && u.password_hash
                        == Some(password_hash) && u.provider@ == "local"@ && u.provider_id is None
                        && u.bio is None && u.avatar_url is None && u.created_at == now
                })
                &&& final(self).next_id == old(self).next_id + 1
                &&& r == Ok::<User, AuthError>(final(self).users@.last())
            },
    {
        if is_blank(username.as_str()) {
            return Err(AuthError::InvalidUsername);
        }
        if self.index_by_name(&username).is_some() {
            return Err(AuthError::UsernameTaken);
        }
        proof {
            lemma_find_user_by_name(self.users@, username@);
        }
        let u = User {
            id: self.next_id,
            username: username,
            password_hash: Some(password_hash),
            provider: String::from_str("local"),
            provider_id: None,
            bio: None,
            avatar_url: None,
            created_at: now,
        };
        let r = u.clone();
        self.users.push(u);
        self.next_id = self.next_id + 1;
        proof {
            assert(forall|j: int|
                0 <= j < old(self).users@.len() ==> #[trigger] final(self).users@[j]
                    == old(self).users@[j]);
            assert(forall|j: int|
                0 <= j < old(self).users@.len() ==> !eq_ci(
                    (#[trigger] old(self).users@[j]).username@,
                    final(self).users@.last().username@,
                ));
            assert forall|j: int| 0 <= j < old(self).users@.len() implies !eq_ci(
                final(self).users@.last().username@,
                (#[trigger] old(self).users@[j]).username@,
            ) by {
                lemma_eq_ci_sym(
                    final(self).users@.last().username@,
                    old(self).users@[j].username@,
                );
            }
        }
        Ok(r)
    }

    /// Validate a registration request: the username must be non-blank and
    /// the password at least six characters long.
    pub fn validate_register(req: &RegisterRequest) -> (r: Result<(), AuthError>)
        ensures
            blank(req.username@) ==> r == Err::<(), AuthError>(AuthError::InvalidUsername),
            !blank(req.username@) && req.password@.len() < 6 ==> r == Err::<(), AuthError>(
                AuthError::WeakPassword,
            ),
            !blank(req.username@) && req.password@.len() >= 6 ==> r == Ok::<(), AuthError>(()),
    {
        if is_blank(req.username.as_str()) {
            return Err(AuthError::InvalidUsername);
        }
        if req.password.as_str().unicode_len() < 6 {
            return Err(AuthError::WeakPassword);
        }
        Ok(())
    }

    /// The account a password login would authenticate against: the named
    /// account, provided it exists and has a password hash.  Verifying the
    /// password against the hash happens outside.
    pub fn login_candidate(&self, req: &LoginRequest) -> (r: Result<User, AuthError>)
        ensures
            match find_user_by_name(self.users@, req.username@) {
                None => r == Err::<User, AuthError>(AuthError::UnknownUser),
                Some(i) => match self.users@[i].password_hash {
                    None => r == Err::<User, AuthError>(AuthError::NoPassword),
                    Some(_) => r == Ok::<User, AuthError>(self.users@[i]),
                },
            },
    {
        proof {
            lemma_find_user_by_name(self.users@, req.username@);
        }
        match self.index_by_name(&req.username) {
            None => Err(AuthError::UnknownUser),
            Some(i) => {
                if self.users[i].password_hash.is_some() {
                    Ok(self.users[i].clone())
                } else {
                    Err(AuthError::NoPassword)
                }
            },
        }
    }

    /// Find or create the account bound to an external identity.  The
    /// account is found by (provider, provider id) first; failing that, an
    /// account with the same username and no provider binding yet is linked;
    /// failing that, a fresh account is created.  The provider-side username
    /// is adopted on a provider match only when no account holds it.
    pub fn upsert_user(
        &mut self,
        username: &String,
        provider: &String,
        provider_id: Option<String>,
        now: u64,
    ) -> (r: User)
        requires
            old(self).wf(),
            old(self).next_id < u64::MAX,
        ensures
            final(self).wf(),
            final(self).prefs == old(self).prefs,
            ({
                let us = old(self).users@;
                let byp = match provider_id {
                    Some(p) => find_user_by_provider(us, provider@, p@),
                    None => None::<int>,
                };
                match byp {
                    Some(i) => if find_user_by_name(us, username@) is None {
                        &&& final(self).users@ == us.update(
                            i,
                            User { username: *username, ..us[i] },
                        )
                        &&& final(self).next_id == old(self).next_id
                        &&& r == User { username: *username, ..us[i] }
                    } else {
                        &&& *final(self) == *old(self)
                        &&& r == us[i]
                    },
                    None => match find_user_by_name(us, username@) {
                        Some(i) => if provider_id is Some && us[i].provider_id is None {
                            &&& final(self).users@ == us.update(
                                i,
                                User { provider: *provider, provider_id: provider_id, ..us[i] },
                            )
                            &&& final(self).next_id == old(self).next_id
                            &&& r == User {
                                provider: *provider,
                                provider_id: provider_id,
                                ..us[i]
                            }
                        } else {
                            &&& *final(self) == *old(self)
                            &&& r == us[i]
                        },
                        None => {
                            &&& final(self).users@ == us.push(
                                User {
                                    id: old(self).next_id,
                                    username: *username,
                                    password_hash: None,
                                    provider: *provider,
                                    provider_id: provider_id,
                                    bio: None,
                                    avatar_url: None,
                                    created_at: now,
                                },
                            )
                            &&& final(self).next_id == old(self).next_id + 1
                            &&& r == final(self).users@.last()
                        },
                    },
                }
            }),
    {
        let by_provider = match &provider_id {
            Some(p) => self.index_by_provider(provider, p),
            None => None,
        };
        proof {
            match &provider_id {
                Some(p) => {
                    lemma_find_user_by_provider(self.users@, provider@, p@);
                },
                None => {},
            }
        }
        match by_provider {
            Some(i) => {
                if self.index_by_name(username).is_none() {
                    proof {
                        lemma_find_user_by_name(self.users@, username@);
                    }
                    let mut nu = self.users[i].clone();
                    nu.username = username.clone();
                    let r = nu.clone();
                    self.users.set(i, nu);
                    proof {
                        self.lemma_wf_after_rename(*old(self), i as int, username@);
                    }
                    r
                } else {
                    self.users[i].clone()
                }
            },
            None => {
                proof {
                    lemma_find_user_by_name(self.users@, username@);
                }
                match self.index_by_name(username) {
                    Some(i) => {
                        if provider_id.is_some() && self.users[i].provider_id.is_none() {
                            let mut nu = self.users[i].clone();
                            nu.provider = provider.clone();
                            nu.provider_id = provider_id;
                            let r = nu.clone();
                            self.users.set(i, nu);
                            proof {
                                let us1 = final(self).users@;
                                assert(forall|j: int|
                                    0 <= j < us1.len() ==> (#[trigger] us1[j]).id
                                        == old(self).users@[j].id && us1[j].username
                                        == old(self).users@[j].username);
                            }
                            r
                        } else {
                            self.users[i].clone()
                        }
                    },
                    None => {
                        proof {
                            lemma_find_user_by_name(self.users@, username@);
                        }
                        let u = User {
                            id: self.next_id,
                            username: username.clone(),
                            password_hash: None,
                            provider: provider.clone(),
                            provider_id: provider_id,
                            bio: None,
                            avatar_url: None,
                            created_at: now,
                        };
                        let r = u.clone();
                        self.users.push(u);
                        self.next_id = self.next_id + 1;
                        proof {
                            self.lemma_wf_after_append(*old(self));
                        }
                        r
                    },
                }
            },
        }
    }

    /// After renaming row `i` to a username that matched no row, the
    /// directory is still well-formed.
    proof fn lemma_wf_after_rename(self, pre: Directory, i: int, name: Seq<char>)
        requires
            pre.wf(),
            0 <= i < pre.users@.len(),
            find_user_by_name(pre.users@, name) is None,
            self.users@.len() == pre.users@.len(),
            self.next_id == pre.next_id,
            self.prefs == pre.prefs,
            forall|j: int| 0 <= j < pre.users@.len() && j != i ==> self.users@[j] == pre.users@[j],
            self.users@[i].id == pre.users@[i].id,
            eq_ci(self.users@[i].username@, name),
        ensures
            self.wf(),
    {
        lemma_find_user_by_name(pre.users@, name);
        assert forall|a: int, b: int| 0 <= a < b < self.users@.len() implies !eq_ci(
            (#[trigger] self.users@[a]).username@,
            (#[trigger] self.users@[b]).username@,
        ) by {
            if a == i {
                if eq_ci(self.users@[a].username@, self.users@[b].username@) {
                    lemma_eq_ci_sym(self.users@[a].username@, name);
                    lemma_eq_ci_sym(self.users@[a].username@, self.users@[b].username@);
                    lemma_eq_ci_trans(self.users@[b].username@, self.users@[a].username@, name);
                    assert(!eq_ci((#[trigger] pre.users@[b]).username@, name));
                }
            } else if b == i {
                if eq_ci(self.users@[a].username@, self.users@[b].username@) {
                    lemma_eq_ci_trans(self.users@[a].username@, self.users@[b].username@, name);
                    assert(!eq_ci((#[trigger] pre.users@[a]).username@, name));
                }
            } else {
                assert(!eq_ci(
                    (#[trigger] pre.users@[a]).username@,
                    (#[trigger] pre.users@[b]).username@,
                ));
            }
        }
    }

    /// After appending a row with a fresh identifier and a username that
    /// matched no row, the directory is still well-formed.
    proof fn lemma_wf_after_append(self, pre: Directory)
        requires
            pre.wf(),
            pre.next_id < u64::MAX,
            self.users@.len() == pre.users@.len() + 1,
            self.next_id == pre.next_id + 1,
            self.prefs == pre.prefs,
            forall|j: int| 0 <= j < pre.users@.len() ==> #[trigger] self.users@[j] == pre.users@[j],
            self.users@.last().id == pre.next_id,
            find_user_by_name(pre.users@, self.users@.last().username@) is None,
        ensures
            self.wf(),
    {
        lemma_find_user_by_name(pre.users@, self.users@.last().username@);
        let n = pre.users@.len() as int;
        assert forall|a: int, b: int| 0 <= a < b < self.users@.len() implies !eq_ci(
            (#[trigger] self.users@[a]).username@,
            (#[trigger] self.users@[b]).username@,
        ) by {
            if b == n {
                assert(!eq_ci((#[trigger] pre.users@[a]).username@, self.users@[b].username@));
                lemma_eq_ci_sym(self.users@[a].username@, self.users@[b].username@);
            } else {
                assert(!eq_ci(
                    (#[trigger] pre.users@[a]).username@,
                    (#[trigger] pre.users@[b]).username@,
                ));
            }
        }
    }

    /// Update the caller's profile: each given field overwrites, each absent
    /// field is kept.  A blank new username, or one another account already
    /// holds, is rejected as `InvalidInput`; an unknown account is
    /// `NotFound`.
    pub fn update_user_profile(
        &mut self,
        user_id: u64,
        username: Option<String>,
        bio: Option<String>,
        avatar_url: Option<String>,
    ) -> (r: Result<User, StoreError>)
        requires
            old(self).wf(),
        ensures
            final(self).wf(),
            final(self).prefs == old(self).prefs,
            final(self).next_id == old(self).next_id,
            ({
                let us = old(self).users@;
                match find_user_by_id(us, user_id) {
                    None => r == Err::<User, StoreError>(StoreError::NotFound) && *final(self)
                        == *old(self),
                    Some(i) => {
                        let nm_ok = match username {
                            Some(n) => !blank(n@) && (match find_user_by_name(us, n@) {
                                Some(j) => j == i,
                                None => true,
                            }),
                            None => true,
                        };
                        if !nm_ok {
                            r == Err::<User, StoreError>(StoreError::InvalidInput) && *final(self)
                                == *old(self)
                        } else {
                            let nu = User {
                                username: match username {
                                    Some(n) => n,
                                    None => us[i].username,
                                },
                                bio: match bio {
                                    Some(b) => Some(b),
                                    None => us[i].bio,
                                },
                                avatar_url: match avatar_url {
                                    Some(a) => Some(a),
                                    None => us[i].avatar_url,
                                },
                                ..us[i]
                            };
                            &&& final(self).users@ == us.update(i, nu)
                            &&& r == Ok::<User, StoreError>(nu)
                        }
                    },
                }
            }),
    {
        proof {
            lemma_find_user_by_id(self.users@, user_id);
        }
        let i = match self.index_by_id(user_id) {
            None => {
                return Err(StoreError::NotFound);
            },
            Some(i) => i,
        };
        proof {
            match &username {
                Some(n) => {
                    lemma_find_user_by_name(self.users@, n@);
                },
                None => {},
            }
        }
        let new_name = match username {
            Some(n) => {
                if is_blank(n.as_str()) {
                    return Err(StoreError::InvalidInput);
                }
                match self.index_by_name(&n) {
                    Some(j) => {
                        if j != i {
                            return Err(StoreError::InvalidInput);
                        }
                    },
                    None => {},
                }
                Some(n)
            },
            None => None,
        };
        let mut nu = self.users[i].clone();
        match new_name {
            Some(n) => {
                nu.username = n;
            },
            None => {},
        }
        match bio {
            Some(b) => {
                nu.bio = Some(b);
            },
            None => {},
        }
        match avatar_url {
            Some(a) => {
                nu.avatar_url = Some(a);
            },
            None => {},
        }
        let r = nu.clone();
        let ghost pre = *self;
        self.users.set(i, nu);
        proof {
            lemma_find_user_by_name(old(self).users@, self.users@[i as int].username@);
            self.lemma_wf_after_profile(*old(self), i as int);
        }
        Ok(r)
    }

    /// After a guarded profile update of row `i`, the directory is still
    /// well-formed.
    proof fn lemma_wf_after_profile(self, pre: Directory, i: int)
        requires
            pre.wf(),
            0 <= i < pre.users@.len(),
            self.users@.len() == pre.users@.len(),
            self.next_id == pre.next_id,
            self.prefs == pre.prefs,
            forall|j: int| 0 <= j < pre.users@.len() && j != i ==> self.users@[j] == pre.users@[j],
            self.users@[i].id == pre.users@[i].id,
            match find_user_by_name(pre.users@, self.users@[i].username@) {
                Some(j) => j == i,
                None => true,
            },
        ensures
            self.wf(),
    {
        lemma_find_user_by_name(pre.users@, self.users@[i].username@);
        assert forall|a: int, b: int| 0 <= a < b < self.users@.len() implies !eq_ci(
            (#[trigger] self.users@[a]).username@,
            (#[trigger] self.users@[b]).username@,
        ) by {
            if a == i {
                if eq_ci(self.users@[a].username@, self.users@[b].username@) {
                    lemma_eq_ci_sym(self.users@[a].username@, self.users@[b].username@);
                    assert(eq_ci((#[trigger] pre.users@[b]).username@, self.users@[i].username@));
                }
            } else if b == i {
                if eq_ci(self.users@[a].username@, self.users@[b].username@) {
                    assert(eq_ci((#[trigger] pre.users@[a]).username@, self.users@[i].username@));
                }
            } else {
                assert(!eq_ci(
                    (#[trigger] pre.users@[a]).username@,
                    (#[trigger] pre.users@[b]).username@,
                ));
            }
        }
    }

    /// Index of the preference row of a user, if any.
    fn index_prefs(&self, user_id: u64) -> (r: Option<usize>)
        ensures
            match r {
                Some(u) => find_prefs(self.prefs@, user_id) == Some(u as int),
                None => find_prefs(self.prefs@, user_id) is None,
            },
    {
        let n = self.prefs.len();
        let mut i: usize = n;
        while i > 0
            invariant
                n == self.prefs@.len(),
                0 <= i <= n,
                forall|j: int| i <= j < n ==> (#[trigger] self.prefs@[j]).user_id != user_id,
            decreases i,
        {
            let k = i - 1;
            if self.prefs[k].user_id == user_id {
                proof {
                    lemma_find_prefs(self.prefs@, user_id);
                    match find_prefs(self.prefs@, user_id) {
                        Some(x) => {
                            assert((#[trigger] self.prefs@[k as int]).user_id == user_id);
                            assert(x == k);
                        },
                        None => {
                            assert(self.prefs@[k as int].user_id == user_id);
                        },
                    }
                }
                return Some(k);
            }
            i = k;
        }
        proof {
            lemma_find_prefs(self.prefs@, user_id);
        }
        None
    }

    /// The stored preferences of a user, if any.
    pub fn get_user_preferences(&self, user_id: u64) -> (r: Option<UserPreferences>)
        ensures
            match find_prefs(self.prefs@, user_id) {
                Some(i) => r == Some(self.prefs@[i]),
                None => r is None,
            },
    {
        proof {
            lemma_find_prefs(self.prefs@, user_id);
        }
        match self.index_prefs(user_id) {
            Some(i) => Some(self.prefs[i].clone()),
            None => None,
        }
    }

    /// The preferences a user effectively has: the stored row, or the
    /// defaults (dark theme, everything enabled).
    pub fn effective_preferences(&self, user_id: u64) -> (r: UserPreferences)
        ensures
            match find_prefs(self.prefs@, user_id) {
                Some(i) => r == self.prefs@[i],
                None => r.user_id == user_id && r.theme@ == "dark"@ && r.notification_sound
                    && r.browser_notifications && r.show_read_receipts && r.show_typing_indicators,
            },
    {
        match self.get_user_preferences(user_id) {
            Some(p) => p,
            None => default_preferences(user_id),
        }
    }

    /// Upsert a user's preferences: each given field overwrites; each absent
    /// field keeps its stored value, or its default on first write.
    pub fn upsert_user_preferences(
        &mut self,
        user_id: u64,
        theme: Option<String>,
        notification_sound: Option<bool>,
        browser_notifications: Option<bool>,
        show_read_receipts: Option<bool>,
        show_typing_indicators: Option<bool>,
    )
        requires
            old(self).wf(),
        ensures
            final(self).wf(),
            final(self).users == old(self).users,
            final(self).next_id == old(self).next_id,
            ({
                let ps = old(self).prefs@;
                match find_prefs(ps, user_id) {
                    Some(i) => final(self).prefs@ == ps.update(
                        i,
                        UserPreferences {
                            user_id: user_id,
                            theme: match theme {
                                Some(t) => t,
                                None => ps[i].theme,
                            },
                            notification_sound: match notification_sound {
                                Some(v) => v,
                                None => ps[i].notification_sound,
                            },
                            browser_notifications: match browser_notifications {
                                Some(v) => v,
                                None => ps[i].browser_notifications,
                            },
                            show_read_receipts: match show_read_receipts {
                                Some(v) => v,
                                None => ps[i].show_read_receipts,
                            },
                            show_typing_indicators: match show_typing_indicators {
                                Some(v) => v,
                                None => ps[i].show_typing_indicators,
                            },
                        },
                    ),
                    None => {
                        &&& final(self).prefs@.len() == ps.len() + 1
                        &&& forall|j: int|
                            0 <= j < ps.len() ==> #[trigger] final(self).prefs@[j] == ps[j]
                        &&& ({
                            let np = final(self).prefs@.last();
                            &&& np.user_id == user_id
                            &&& match theme {
                                Some(t) => np.theme == t,
                                None => np.theme@ == "dark"@,
                            }
                            &&& np.notification_sound == match notification_sound {
                                Some(v) => v,
                                None => true,
                            }
                            &&& np.browser_notifications == match browser_notifications {
                                Some(v) => v,
                                None => true,
                            }
                            &&& np.show_read_receipts == match show_read_receipts {
                                Some(v) => v,
                                None => true,
                            }
                            &&& np.show_typing_indicators == match show_typing_indicators {
                                Some(v) => v,
                                None => true,
                            }
                        })
                    },
                }
            }),
    {
        proof {
            lemma_find_prefs(self.prefs@, user_id);
        }
        let base = match self.index_prefs(user_id) {
            Some(i) => self.prefs[i].clone(),
            None => default_preferences(user_id),
        };
        let np = UserPreferences {
            user_id: user_id,
            theme: match theme {
                Some(t) => t,
                None => base.theme,
            },
            notification_sound: match notification_sound {
                Some(v) => v,
                None => base.notification_sound,
            },
            browser_notifications: match browser_notifications {
                Some(v) => v,
                None => base.browser_notifications,
            },
            show_read_receipts: match show_read_receipts {
                Some(v) => v,
                None => base.show_read_receipts,
            },
            show_typing_indicators: match show_typing_indicators {
                Some(v) => v,
                None => base.show_typing_indicators,
            },
        };
        match self.index_prefs(user_id) {
            Some(i) => {
                self.prefs.set(i, np);
                proof {
                    let ps1 = final(self).prefs@;
                    assert(forall|j: int|
                        0 <= j < ps1.len() ==> (#[trigger] ps1[j]).user_id
                            == old(self).prefs@[j].user_id);
                }
            },
            None => {
                self.prefs.push(np);
                proof {
                    assert(forall|j: int|
                        0 <= j < old(self).prefs@.len() ==> #[trigger] final(self).prefs@[j]
                            == old(self).prefs@[j]);
                }
            },
        }
    }

    /// Resolve a typed identity to an account: a direct local mapping is
    /// looked up, anything else is found or created through
    /// `upsert_user`; empty credentials are refused.  The returned account
    /// is always present in the directory afterwards.
    pub fn resolve_user(&mut self, ident: &Identity, now: u64) -> (r: Result<User, StoreError>)
        requires
            old(self).wf(),
            old(self).next_id < u64::MAX,
        ensures
            final(self).wf(),
            final(self).prefs == old(self).prefs,
            ident.external_id@.len() == 0 && ident.username is None ==> r == Err::<
                User,
                StoreError,
            >(StoreError::Forbidden) && *final(self) == *old(self),
            !(ident.external_id@.len() == 0 && ident.username is None) ==> match ident.user_id {
                Some(id) => *final(self) == *old(self) && (match find_user_by_id(
                    old(self).users@,
                    id,
                ) {
                    Some(i) => r == Ok::<User, StoreError>(old(self).users@[i]),
                    None => r == Err::<User, StoreError>(StoreError::Forbidden),
                }),
                None => ({
                    let us = old(self).users@;
                    let name_v = match ident.username {
                        Some(n) => n@,
                        None => "Anonymous"@,
                    };
                    match r {
                        Ok(u) => find_user_by_id(final(self).users@, u.id) is Some && (match
                        find_user_by_provider(us, ident.provider@, ident.external_id@) {
                            Some(i) => if find_user_by_name(us, name_v) is None {
                                u.id == us[i].id && u.username@ == name_v
                            } else {
                                u == us[i]
                            },
                            None => match find_user_by_name(us, name_v) {
                                Some(i) => u.id == us[i].id,
                                None => u.id == old(self).next_id && u.username@ == name_v
                                    && u.provider == ident.provider && u.provider_id == Some(
                                    ident.external_id,
                                ) && u.password_hash is None,
                            },
                        }),
                        Err(_) => false,
                    }
                }),
            },
    {
        if ident.external_id.as_str().is_empty() && ident.username.is_none() {
            return Err(StoreError::Forbidden);
        }
        match ident.user_id {
            Some(id) => {
                proof {
                    lemma_find_user_by_id(self.users@, id);
                }
                match self.get_user_by_id(id) {
                    Some(u) => Ok(u),
                    None => Err(StoreError::Forbidden),
                }
            },
            None => {
                let name = match &ident.username {
                    Some(n) => n.clone(),
                    None => String::from_str("Anonymous"),
                };
                let u = self.upsert_user(&name, &ident.provider, Some(ident.external_id.clone()), now);
                proof {
                    let us = old(self).users@;
                    let us1 = self.users@;
                    lemma_find_user_by_id(us1, u.id);
                    if find_user_by_id(us1, u.id) is None {
                        match find_user_by_provider(us, ident.provider@, ident.external_id@) {
                            Some(i) => {
                                lemma_find_user_by_provider(
                                    us,
                                    ident.provider@,
                                    ident.external_id@,
                                );
                                assert((#[trigger] us1[i]).id == u.id);
                            },
                            None => {
                                match find_user_by_name(us, name@) {
                                    Some(i) => {
                                        lemma_find_user_by_name(us, name@);
                                        assert((#[trigger] us1[i]).id == u.id);
                                    },
                                    None => {
                                        assert((#[trigger] us1[us1.len() - 1]).id == u.id);
                                    },
                                }
                            },
                        }
                    }
                }
                Ok(u)
            },
        }
    }

    /// Remove an account.  Removing an unknown account is a no-op.
    pub fn delete_user(&mut self, user_id: u64)
        requires
            old(self).wf(),
        ensures
            final(self).wf(),
            final(self).prefs == old(self).prefs,
            final(self).next_id == old(self).next_id,
            match find_user_by_id(old(self).users@, user_id) {
                None => *final(self) == *old(self),
                Some(i) => final(self).users@ == old(self).users@.remove(i),
            },
    {
        proof {
            lemma_find_user_by_id(self.users@, user_id);
        }
        match self.index_by_id(user_id) {
            None => {},
            Some(i) => {
                self.users.remove(i);
                proof {
                    assert(forall|j: int|
                        0 <= j < i ==> #[trigger] final(self).users@[j] == old(self).users@[j]);
                    assert(forall|j: int|
                        i <= j < final(self).users@.len() ==> #[trigger] final(self).users@[j]
                            == old(self).users@[j + 1]);
                }
            },
        }
    }
}

/// The default preferences of a user: dark theme, everything enabled.
pub fn default_preferences(user_id: u64) -> (r: UserPreferences)
    ensures
        r.user_id == user_id,
        r.theme@ == "dark"@,
        r.notification_sound,
        r.browser_notifications,
        r.show_read_receipts,
        r.show_typing_indicators,
{
    UserPreferences {
        user_id: user_id,
        theme: String::from_str("dark"),
        notification_sound: true,
        browser_notifications: true,
        show_read_receipts: true,
        show_typing_indicators: true,
    }
}

} // verus!
