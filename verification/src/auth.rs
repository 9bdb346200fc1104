use vstd::prelude::*;

use crate::errors::StoreError;
use crate::ext;
use crate::ext::bcrypt_accepts;
use crate::models::{User, UserRole, UserView};

verus! {

/// There is a registered user with this username (case-sensitive).
pub open spec fn has_user(us: Seq<UserView>, username: Seq<char>) -> bool {
    exists|i: int| 0 <= i < us.len() && us[i].username == username
}

/// The index of the user with this username; meaningful only under
/// [`unique_usernames`], where at most one index qualifies.
pub open spec fn user_index(us: Seq<UserView>, username: Seq<char>) -> int {
    choose|i: int| 0 <= i < us.len() && us[i].username == username
}

/// The user registered under this username, if any.
pub open spec fn spec_get_user(us: Seq<UserView>, username: Seq<char>) -> Option<UserView> {
    if has_user(us, username) {
        Some(us[user_index(us, username)])
    } else {
        None
    }
}

/// No two registered users share a username.
pub open spec fn unique_usernames(us: Seq<UserView>) -> bool {
    forall|i: int, j: int| 0 <= i < j < us.len() ==> us[i].username != us[j].username
}

/// Under unique usernames, any index holding `username` is the one
/// [`user_index`] picks.
pub proof fn lemma_user_index_unique(us: Seq<UserView>, username: Seq<char>, i: int)
    requires
        unique_usernames(us),
        0 <= i < us.len(),
        us[i].username == username,
    ensures
        has_user(us, username),
        user_index(us, username) == i,
        spec_get_user(us, username) == Some(us[i]),
{
    assert(has_user(us, username));
    let j = user_index(us, username);
    if i < j {
        assert(us[i].username != us[j].username);
    } else if j < i {
        assert(us[j].username != us[i].username);
    }
}

/// The mathematical value of an [`Auth`]: the registered users in
/// registration order, and the active session if any.
pub struct AuthView {
    pub users: Seq<UserView>,
    pub current_user: Option<UserView>,
}

impl AuthView {
    /// The credential store's invariant: usernames are unique keys.
    pub open spec fn wf(self) -> bool {
        unique_usernames(self.users)
    }

    /// There is an active session whose user holds the Manager role.
    pub open spec fn manager_active(self) -> bool {
        self.current_user matches Some(u) && u.role is Manager
    }
}

/// The credential store: the set of registered users and the single active
/// session, if any.
pub struct Auth {
    users: Vec<User>,
    current_user: Option<User>,
}

impl View for Auth {
    type V = AuthView;

    closed spec fn view(&self) -> AuthView {
        (AuthView {
            users: self.users.deep_view(),
            current_user: match self.current_user {
                Some(ref u) => Some(u@),
                None => None,
            },
        })
    }
}

impl Auth {
    /// An empty credential store with no active session. Loading a persisted
    /// user set, or seeding the default administrator when there is none, is
    /// an explicit follow-up step.
    pub fn new() -> (r: Self)
        ensures
            r@.users.len() == 0,
            r@.current_user is None,
            r@.wf(),
    {
        let r = Auth { users: Vec::new(), current_user: None };
        proof {
            assert(r@.users =~= Seq::<UserView>::empty());
        }
        r
    }

    /// No user has been registered yet.
    pub fn is_empty(&self) -> (r: bool)
        ensures
            r == (self@.users.len() == 0),
    {
        self.users.len() == 0
    }

    /// The index at which the user with this username sits, if any.
    fn find_user(&self, username: &str) -> (r: Option<usize>)
        ensures
            (r matches Some(i) ==> i < self@.users.len() && self@.users[i as int].username
                == username@),
            r is None ==> !has_user(self@.users, username@),
    {
        let n = self.users.len();
        let mut i: usize = 0;
        while i < n
            invariant
                n == self@.users.len(),
                i <= n,
                forall|j: int| 0 <= j < i ==> self@.users[j].username != username@,
            decreases n - i,
        {
            if ext::str_eq(self.users[i].username.as_str(), username) {
                return Some(i);
            }
            i += 1;
        }
        None
    }

    /// Whether a user with this username is registered.
    pub fn user_exists(&self, username: &str) -> (r: bool)
        requires
            self@.wf(),
        ensures
            r == has_user(self@.users, username@),
    {
        match self.find_user(username) {
            Some(_) => true,
            None => false,
        }
    }

    /// Registers a user whose password hash has already been computed: fails
    /// with `InvalidInput` when the username is taken, leaving everything
    /// unchanged; otherwise appends the new user with the given identifier,
    /// hash and role. The session is never touched.
    pub fn register_hashed(
        &mut self,
        id: u128,
        username: String,
        password_hash: String,
        role: UserRole,
    ) -> (r: Result<(), StoreError>)
        requires
            old(self)@.wf(),
        ensures
            final(self)@.wf(),
            final(self)@.current_user == old(self)@.current_user,
            has_user(old(self)@.users, username@) ==> (r matches Err(e) && e is InvalidInput)
                && final(self)@ == old(self)@,
            !has_user(old(self)@.users, username@) ==> r is Ok
                && final(self)@.users == old(self)@.users.push(
                    (UserView { id, username: username@, password_hash: password_hash@, role }),
                ),
    {
        if self.user_exists(username.as_str()) {
            let mut msg = String::from_str("Username '");
            msg.append(username.as_str());
            msg.append("' already exists");
            return Err(StoreError::InvalidInput(msg));
        }
        let user = User { id, username, password_hash, role };
        let ghost uv = user@;
        self.users.push(user);
        proof {
            let us = final(self)@.users;
            let old_us = old(self)@.users;
            assert(us =~= old_us.push(uv));
            assert forall|a: int, b: int| 0 <= a < b < us.len() implies us[a].username
                != us[b].username by {
                if b == us.len() - 1 {
                    assert(!has_user(old_us, uv.username));
                    assert(us[a] == old_us[a]);
                } else {
                    assert(old_us[a].username != old_us[b].username);
                }
            }
        }
        Ok(())
    }

    /// Registers a new user: fails with `InvalidInput` when the username is
    /// taken and with `AuthError` when the hashing primitive fails, leaving
    /// everything unchanged in both cases; otherwise hashes the password with
    /// bcrypt (slow and salted by design) and appends the user. The stored
    /// hash and the fresh identifier come from a random salt and a random
    /// draw, so the contract does not pin them; [`Self::register_hashed`]
    /// states exactly what happens for any given hash.
    pub fn register(&mut self, username: String, password: String, role: UserRole) -> (r: Result<
        (),
        StoreError,
    >)
        requires
            old(self)@.wf(),
        ensures
            final(self)@.wf(),
            final(self)@.current_user == old(self)@.current_user,
            has_user(old(self)@.users, username@) ==> (r matches Err(e) && e is InvalidInput)
                && final(self)@ == old(self)@,
            r matches Err(e) ==> final(self)@ == old(self)@ && (e is InvalidInput
                || e is AuthError),
            !has_user(old(self)@.users, username@) ==> (r matches Err(e) ==> e is AuthError),
            r is Ok ==> !has_user(old(self)@.users, username@)
                && final(self)@.users.len() == old(self)@.users.len() + 1
                && final(self)@.users.subrange(0, old(self)@.users.len() as int)
                    == old(self)@.users
                && final(self)@.users.last().username == username@
                && final(self)@.users.last().role == role,
    {
        if self.user_exists(username.as_str()) {
            let mut msg = String::from_str("Username '");
            msg.append(username.as_str());
            msg.append("' already exists");
            return Err(StoreError::InvalidInput(msg));
        }
        let password_hash = match ext::hash_password(password.as_str()) {
            Some(h) => h,
            None => {
                return Err(StoreError::AuthError);
            },
        };
        let id = ext::fresh_uuid();
        let ghost old_users = self@.users;
        let r = self.register_hashed(id, username, password_hash, role);
        proof {
            assert(final(self)@.users.subrange(0, old_users.len() as int) =~= old_users);
        }
        r
    }

    /// Registers the default administrator account that a fresh installation
    /// is seeded with: username `admin`, password `admin123`, Manager role.
    pub fn seed_default(&mut self) -> (r: Result<(), StoreError>)
        requires
            old(self)@.wf(),
        ensures
            final(self)@.wf(),
            final(self)@.current_user == old(self)@.current_user,
            r is Ok ==> final(self)@.users.len() == old(self)@.users.len() + 1
                && final(self)@.users.last().username == "admin"@
                && final(self)@.users.last().role == UserRole::Manager,
            r matches Err(e) ==> final(self)@ == old(self)@,
    {
        self.register(
            String::from_str("admin"),
            String::from_str("admin123"),
            UserRole::Manager,
        )
    }

    /// Logs a user in: fails with `AuthError` when the username is unknown,
    /// when bcrypt does not accept the password against the stored hash, or
    /// when verification itself fails — deliberately the same error for all
    /// three, so a caller cannot probe which usernames exist. On success the
    /// session becomes a copy of the matched user.
    pub fn login(&mut self, username: &str, password: &str) -> (r: Result<(), StoreError>)
        requires
            old(self)@.wf(),
        ensures
            final(self)@.wf(),
            final(self)@.users == old(self)@.users,
            spec_get_user(old(self)@.users, username@) is None ==> (r matches Err(e)
                && e is AuthError) && final(self)@ == old(self)@,
            spec_get_user(old(self)@.users, username@) matches Some(u) ==> (
                if bcrypt_accepts(password@, u.password_hash) {
                    r is Ok && final(self)@.current_user == Some(u)
                } else {
                    (r matches Err(e) && e is AuthError) && final(self)@ == old(self)@
                }),
    {
        let i = match self.find_user(username) {
            Some(i) => i,
            None => {
                return Err(StoreError::AuthError);
            },
        };
        proof {
            lemma_user_index_unique(self@.users, username@, i as int);
        }
        let user = &self.users[i];
        if !ext::verify_password(password, user.password_hash.as_str()) {
            return Err(StoreError::AuthError);
        }
        self.current_user = Some(user.clone());
        Ok(())
    }

    /// True exactly when there is an active session and its user holds the
    /// Manager role; false with no session at all.
    pub fn is_manager(&self) -> (r: bool)
        ensures
            r == self@.manager_active(),
    {
        match &self.current_user {
            Some(user) => match user.role {
                UserRole::Manager => true,
                UserRole::Employee => false,
            },
            None => false,
        }
    }

    /// The active session's user, or absence.
    pub fn get_current_user(&self) -> (r: Option<&User>)
        ensures
            (r matches Some(u) ==> self@.current_user == Some(u@)),
            r is None <==> self@.current_user is None,
    {
        match &self.current_user {
            Some(user) => Some(user),
            None => None,
        }
    }

    /// The canonical JSON text of the user set, which is persisted after
    /// every successful registration.
    pub fn users_json(&self) -> (r: String)
        ensures
            r@ == crate::codec::users_json(self@.users),
    {
        crate::codec::render_users(&self.users)
    }

    /// Replaces the user set with the one read from a canonical user
    /// document, leaving everything untouched when the text does not read
    /// back as a set with unique usernames. The last clause is the round
    /// trip: loading exactly the canonical text of a unique-keyed user set
    /// yields exactly that set. The session is never touched.
    pub fn load_users_as(&mut self, text: &str, expected: Ghost<Seq<UserView>>) -> (ok: bool)
        requires
            old(self)@.wf(),
        ensures
            final(self)@.wf(),
            final(self)@.current_user == old(self)@.current_user,
            !ok ==> final(self)@ == old(self)@,
            unique_usernames(expected@) && text@ == crate::codec::users_json(expected@) ==> ok
                && final(self)@.users == expected@,
    {
        match crate::parse::parse_users_doc(text, Ghost(expected@)) {
            None => false,
            Some(us) => {
                if !names_unique(&us) {
                    return false;
                }
                self.users = us;
                true
            },
        }
    }

    /// Replaces the user set with the one read from the text, if it is a
    /// canonical user document with unique usernames; on such a text this
    /// succeeds and the loaded set writes back exactly the same text.
    pub fn load_users(&mut self, text: &str) -> (ok: bool)
        requires
            old(self)@.wf(),
        ensures
            final(self)@.wf(),
            final(self)@.current_user == old(self)@.current_user,
            !ok ==> final(self)@ == old(self)@,
            (exists|v: Seq<UserView>| unique_usernames(v) && text@ == crate::codec::users_json(v))
                ==> ok && text@ == crate::codec::users_json(final(self)@.users),
    {
        let ghost w = choose|v: Seq<UserView>|
            unique_usernames(v) && text@ == crate::codec::users_json(v);
        self.load_users_as(text, Ghost(w))
    }

    /// Clears the active session unconditionally; the user set is untouched.
    pub fn logout(&mut self)
        ensures
            final(self)@.users == old(self)@.users,
            final(self)@.current_user is None,
    {
        self.current_user = None;
    }
}

/// Whether no two users of the vector share a username.
#[verifier::loop_isolation(false)]
fn names_unique(us: &Vec<User>) -> (r: bool)
    ensures
        r == unique_usernames(us.deep_view()),
{
    let n = us.len();
    let mut i: usize = 0;
    while i < n
        invariant
            i <= n,
            forall|a: int, b: int| 0 <= a < b < i ==> us.deep_view()[a].username
                != us.deep_view()[b].username,
        decreases n - i,
    {
        let mut j: usize = 0;
        while j < i
            invariant
                j <= i < n,
                forall|b: int| 0 <= b < j ==> us.deep_view()[b].username
                    != us.deep_view()[i as int].username,
            decreases i - j,
        {
            if ext::str_eq(us[j].username.as_str(), us[i].username.as_str()) {
                proof {
                    assert(us.deep_view()[j as int] == us[j as int]@);
                    assert(us.deep_view()[i as int] == us[i as int]@);
                }
                return false;
            }
            j += 1;
        }
        i += 1;
    }
    true
}

/// With no active session there is no manager: this holds of a freshly
/// constructed credential store and of any store right after `logout`, both
/// of which end with `current_user` absent.
pub proof fn lemma_no_session_not_manager(a: AuthView)
    requires
        a.current_user is None,
    ensures
        !a.manager_active(),
{
}

} // verus!
