//! Managing the stored users: adding, deleting and changing passwords. New
//! users are keyed by their login name, lower-cased the way `login` looks it
//! up; deleting and changing a password use the stored key exactly as given.

use vstd::prelude::*;

use crate::authentication::check_password;
use crate::authentication::hash_password;
use crate::authentication::login_in_map;
use crate::authentication::lowercase;
use crate::authentication::new_user;
use crate::authentication::password_hash;
use crate::authentication::to_lowercase;
use crate::authentication::LoginAction;
use crate::authentication::LoginRole;
use crate::authentication::User;
use crate::authentication::UserView;
use crate::user_store::UserStore;

verus! {

/// The role a new user gets.
pub open spec fn role_for(admin: bool) -> LoginRole {
    if admin {
        LoginRole::Admin
    } else {
        LoginRole::User
    }
}

/// The users after adding `username`: stored under the lower-cased login
/// name, with the lower-cased name and the hashed password inside.
pub open spec fn with_added_user(
    users: Map<Seq<char>, UserView>,
    username: Seq<char>,
    password: Seq<char>,
    admin: bool,
) -> Map<Seq<char>, UserView> {
    users.insert(lowercase(username), new_user(username, password, role_for(admin)))
}

/// The users after changing the password of the user stored under
/// `username`, if there is one.
pub open spec fn with_new_password(
    users: Map<Seq<char>, UserView>,
    username: Seq<char>,
    new_password: Seq<char>,
) -> Map<Seq<char>, UserView> {
    if users.contains_key(username) {
        users.insert(username, UserView { password: password_hash(new_password), ..users[username] })
    } else {
        users
    }
}

/// Adds (or replaces) the user with login name `username`, an admin when
/// `admin` is set.
pub fn add_user(users: &mut UserStore, username: String, password: String, admin: bool)
    requires
        old(users).wf(),
    ensures
        final(users).wf(),
        final(users)@ == with_added_user(old(users)@, username@, password@, admin),
        final(users)@.contains_key(lowercase(username@)),
        final(users)@[lowercase(username@)].role == if admin {
            LoginRole::Admin
        } else {
            LoginRole::User
        },
        final(users)@[lowercase(username@)].password == password_hash(password@),
        forall|k: Seq<char>| k != lowercase(username@) ==> (#[trigger] final(users)@.contains_key(k)
            == old(users)@.contains_key(k)) && (old(users)@.contains_key(k) ==> final(users)@[k]
            == old(users)@[k]),
{
    let role: LoginRole = if admin {
        LoginRole::Admin
    } else {
        LoginRole::User
    };
    let user = User::new(username.as_str(), password.as_str(), role);
    let key = to_lowercase(username.as_str());
    users.insert(key, user);
}

/// Deletes the user stored under `username`, exactly as given. Returns
/// whether such a user existed; when it did not, nothing changes.
pub fn delete_user(users: &mut UserStore, username: String) -> (existed: bool)
    requires
        old(users).wf(),
    ensures
        final(users).wf(),
        existed == old(users)@.contains_key(username@),
        final(users)@ == old(users)@.remove(username@),
{
    if !users.contains_key(username.as_str()) {
        assert(old(users)@.remove(username@) =~= old(users)@);
        return false;
    }
    users.remove(username.as_str());
    true
}

/// Changes the password of the user stored under `username`, exactly as
/// given. Returns whether such a user existed; when it did not, nothing changes.
pub fn change_password(users: &mut UserStore, username: String, new_password: String) -> (existed:
    bool)
    requires
        old(users).wf(),
    ensures
        final(users).wf(),
        existed == old(users)@.contains_key(username@),
        final(users)@ == with_new_password(old(users)@, username@, new_password@),
        final(users)@.dom() == old(users)@.dom(),
        forall|k: Seq<char>| k != username@ && #[trigger] old(users)@.contains_key(k) ==> final(users)@[k]
            == old(users)@[k],
        existed ==> final(users)@[username@].password == password_hash(new_password@),
        existed ==> final(users)@[username@].role == old(users)@[username@].role,
        existed ==> final(users)@[username@].username == old(users)@[username@].username,
{
    proof {
        lemma_password_change_touches_one_user(old(users)@, username@, new_password@);
    }
    let updated = match users.get(username.as_str()) {
        Some(user) => Some(
            User {
                username: user.username.clone(),
                password: hash_password(new_password.as_str()),
                role: user.role,
            },
        ),
        None => None,
    };
    match updated {
        Some(user) => {
            users.insert(username, user);
            true
        },
        None => false,
    }
}

/// A user that was just added can log in under any name that lower-cases like
/// the one it was added with, using its password, and gets the chosen role;
/// logins under names that lower-case differently are unaffected.
pub proof fn lemma_login_after_add(
    users: Map<Seq<char>, UserView>,
    username: Seq<char>,
    password: Seq<char>,
    admin: bool,
    login_name: Seq<char>,
    other_password: Seq<char>,
)
    ensures
        lowercase(login_name) == lowercase(username) ==> login_in_map(
            with_added_user(users, username, password, admin),
            lowercase(login_name),
            password,
        ) == Some(
            LoginAction::Granted(
                if admin {
                    LoginRole::Admin
                } else {
                    LoginRole::User
                },
            ),
        ),
        lowercase(login_name) != lowercase(username) ==> login_in_map(
            with_added_user(users, username, password, admin),
            lowercase(login_name),
            other_password,
        ) == login_in_map(users, lowercase(login_name), other_password),
{
}

/// A deleted user is unknown to login under every name that lower-cases to
/// its key; logins looked up under other keys are unaffected.
pub proof fn lemma_login_after_delete(
    users: Map<Seq<char>, UserView>,
    username: Seq<char>,
    login_name: Seq<char>,
    password: Seq<char>,
)
    ensures
        lowercase(login_name) == username ==> login_in_map(
            users.remove(username),
            lowercase(login_name),
            password,
        ) == None::<LoginAction>,
        lowercase(login_name) != username ==> login_in_map(
            users.remove(username),
            lowercase(login_name),
            password,
        ) == login_in_map(users, lowercase(login_name), password),
{
}

/// After a password change the new password is granted with the user's role,
/// and any password that hashes differently is denied, for every login name
/// that lower-cases to the user's key.
pub proof fn lemma_login_after_password_change(
    users: Map<Seq<char>, UserView>,
    username: Seq<char>,
    new_password: Seq<char>,
    login_name: Seq<char>,
    password: Seq<char>,
)
    requires
        users.contains_key(username),
        lowercase(login_name) == username,
    ensures
        login_in_map(with_new_password(users, username, new_password), lowercase(login_name), new_password)
            == Some(LoginAction::Granted(users[username].role)),
        password_hash(password) != password_hash(new_password) ==> login_in_map(
            with_new_password(users, username, new_password),
            lowercase(login_name),
            password,
        ) == Some(LoginAction::Denied),
{
}

/// Adding a user stores, under its lower-cased login name, a user with the
/// lower-cased name, the hash of the given password and the role asked for
/// (`User` unless `admin`); every other stored user stays as it was.
pub proof fn lemma_added_user_role(
    users: Map<Seq<char>, UserView>,
    username: Seq<char>,
    password: Seq<char>,
    admin: bool,
)
    ensures
        with_added_user(users, username, password, admin).contains_key(lowercase(username)),
        with_added_user(users, username, password, admin)[lowercase(username)].role == if admin {
            LoginRole::Admin
        } else {
            LoginRole::User
        },
        with_added_user(users, username, password, false)[lowercase(username)].role == LoginRole::User,
        with_added_user(users, username, password, true)[lowercase(username)].role == LoginRole::Admin,
        with_added_user(users, username, password, admin)[lowercase(username)].username == lowercase(username),
        with_added_user(users, username, password, admin)[lowercase(username)].password == password_hash(
            password,
        ),
        forall|k: Seq<char>| k != lowercase(username) ==> (#[trigger] with_added_user(users, username, password, admin).contains_key(k)
            == users.contains_key(k)) && (users.contains_key(k) ==> with_added_user(
            users,
            username,
            password,
            admin,
        )[k] == users[k]),
{
}

/// Changing one user's password keeps the set of users, leaves every other
/// user exactly as it was, and changes only the password of that user (to
/// the hash of the new one), keeping its name and role.
pub proof fn lemma_password_change_touches_one_user(
    users: Map<Seq<char>, UserView>,
    username: Seq<char>,
    new_password: Seq<char>,
)
    ensures
        with_new_password(users, username, new_password).dom() == users.dom(),
        forall|k: Seq<char>| k != username && #[trigger] users.contains_key(k) ==> with_new_password(
            users,
            username,
            new_password,
        )[k] == users[k],
        users.contains_key(username) ==> with_new_password(users, username, new_password)[username].password
            == password_hash(new_password),
        users.contains_key(username) ==> with_new_password(users, username, new_password)[username].role
            == users[username].role,
        users.contains_key(username) ==> with_new_password(users, username, new_password)[username].username
            == users[username].username,
{
    if users.contains_key(username) {
        assert(with_new_password(users, username, new_password).dom() =~= users.dom());
    }
}

/// A wrong password for a known user is denied and never grants a role.
pub proof fn lemma_wrong_password_denied(
    users: Map<Seq<char>, UserView>,
    key: Seq<char>,
    password: Seq<char>,
)
    requires
        users.contains_key(key),
        users[key].password != password_hash(password),
    ensures
        login_in_map(users, key, password) == Some(LoginAction::Denied),
        check_password(users[key], password) == Some(LoginAction::Denied),
{
}

} // verus!
