//! Users, password hashing and the login decision.

use sha2::Digest;
use vstd::prelude::*;
use vstd::utf8::encode_utf8;
use vstd::utf8::is_ascii_chars;

use crate::text::hex_upper;
use crate::text::to_hex_upper;
use crate::user_store::UserStore;

verus! {

/// The SHA-256 digest of `data`, as computed by the `sha2` crate.
pub uninterp spec fn sha256(data: Seq<u8>) -> Seq<u8>;

/// The Unicode lower-case form of a string, as computed by `str::to_lowercase`.
pub uninterp spec fn lowercase(s: Seq<char>) -> Seq<char>;

/// ASCII lower-casing of one character: `A..=Z` become `a..=z`, all else stays.
pub open spec fn ascii_lower_char(c: char) -> char {
    if 'A' <= c <= 'Z' {
        ((c as int) + 32) as char
    } else {
        c
    }
}

/// ASCII lower-casing of a whole string.
pub open spec fn ascii_lower(s: Seq<char>) -> Seq<char> {
    s.map_values(|c: char| ascii_lower_char(c))
}

/// Hashes `data` with `sha2::Sha256` (`Digest::digest`, which runs `new`,
/// `update` and `finalize`). The result is named `sha256`; its length is the
/// algorithm's output size, 32 bytes. Nothing else is claimed of the digest.
#[verifier::external_body]
fn sha256_digest(data: &[u8]) -> (d: Vec<u8>)
    ensures
        d@ == sha256(data@),
        d@.len() == 32,
{
    sha2::Sha256::digest(data).to_vec()
}

/// Lower-cases `s` with `str::to_lowercase`. The result is named `lowercase`.
/// On ASCII text the standard library documents it to agree with ASCII
/// lower-casing (only `A..=Z` change); that is the one further fact claimed.
#[verifier::external_body]
pub(crate) fn to_lowercase(s: &str) -> (r: String)
    ensures
        r@ == lowercase(s@),
        is_ascii_chars(s@) ==> r@ == ascii_lower(s@),
{
    s.to_lowercase()
}

/// The role a user logs in with.
#[derive(PartialEq, Eq, Debug, Clone, Copy, Structural)]
pub enum LoginRole {
    Admin,
    User,
}

/// The answer to a login attempt for a known user.
#[derive(PartialEq, Eq, Debug, Clone, Copy, Structural)]
pub enum LoginAction {
    Granted(LoginRole),
    Denied,
}

/// A stored user: lower-cased name, hashed password and role.
#[derive(Debug, Clone)]
pub struct User {
    pub username: String,
    pub password: String,
    pub role: LoginRole,
}

/// The mathematical value of a [`User`].
pub ghost struct UserView {
    pub username: Seq<char>,
    pub password: Seq<char>,
    pub role: LoginRole,
}

impl View for User {
    type V = UserView;

    open spec fn view(&self) -> UserView {
        UserView { username: self.username@, password: self.password@, role: self.role }
    }
}

/// The greeting text for `name`.
pub open spec fn greeting(name: Seq<char>) -> Seq<char> {
    "Hello "@ + name
}

/// The stored form of a password: upper-case hex of the SHA-256 digest of its UTF-8 bytes.
pub open spec fn password_hash(password: Seq<char>) -> Seq<char> {
    hex_upper(sha256(encode_utf8(password)))
}

/// The user that `User::new` builds.
pub open spec fn new_user(username: Seq<char>, password: Seq<char>, role: LoginRole) -> UserView {
    UserView { username: lowercase(username), password: password_hash(password), role }
}

/// What a login with `password` gives for the stored user `u`.
pub open spec fn check_password(u: UserView, password: Seq<char>) -> Option<LoginAction> {
    if u.password == password_hash(password) {
        Some(LoginAction::Granted(u.role))
    } else {
        Some(LoginAction::Denied)
    }
}

/// Login against a list of users: the first user whose name is `key` decides.
pub open spec fn login_in_seq(users: Seq<UserView>, key: Seq<char>, password: Seq<char>) -> Option<
    LoginAction,
>
    decreases users.len(),
{
    if users.len() == 0 {
        None
    } else if users[0].username == key {
        check_password(users[0], password)
    } else {
        login_in_seq(users.drop_first(), key, password)
    }
}

/// Login against users keyed by name.
pub open spec fn login_in_map(users: Map<Seq<char>, UserView>, key: Seq<char>, password: Seq<char>) -> Option<
    LoginAction,
> {
    if users.contains_key(key) {
        check_password(users[key], password)
    } else {
        None
    }
}

/// The two users every fresh installation starts with, in order.
pub open spec fn default_users_seq() -> Seq<UserView> {
    seq![
        UserView { username: "admin"@, password: password_hash("password"@), role: LoginRole::Admin },
        UserView { username: "bob"@, password: password_hash("password"@), role: LoginRole::User },
    ]
}

/// The default users keyed by name.
pub open spec fn default_users_map() -> Map<Seq<char>, UserView> {
    map![
        "admin"@ => default_users_seq()[0],
        "bob"@ => default_users_seq()[1],
    ]
}

/// Greets `name`: `"Hello "` followed by the name.
pub fn greet_user(name: &str) -> (res: String)
    ensures
        res@ == greeting(name@),
{
    let mut res = String::from_str("Hello ");
    res.append(name);
    res
}

/// Hashes a password: SHA-256 of its UTF-8 bytes, rendered as 64 upper-case hex digits.
pub fn hash_password(password: &str) -> (h: String)
    ensures
        h@ == password_hash(password@),
        h@.len() == 64,
        forall|i: int| 0 <= i < h@.len() ==> crate::text::is_hex_upper_digit(#[trigger] h@[i]),
{
    let digest = sha256_digest(password.as_bytes());
    proof {
        crate::text::lemma_hex_upper_shape(digest@);
    }
    to_hex_upper(digest.as_slice())
}

impl User {
    /// Builds a user with a lower-cased name and a hashed password.
    pub fn new(username: &str, password: &str, role: LoginRole) -> (u: User)
        ensures
            u@ == new_user(username@, password@, role),
            is_ascii_chars(username@) ==> u.username@ == ascii_lower(username@),
    {
        User { username: to_lowercase(username), password: hash_password(password), role }
    }
}

/// `"admin"` and `"bob"` are their own ASCII lower-case forms, and differ.
proof fn lemma_default_names()
    ensures
        is_ascii_chars("admin"@),
        is_ascii_chars("bob"@),
        ascii_lower("admin"@) == "admin"@,
        ascii_lower("bob"@) == "bob"@,
        "admin"@ != "bob"@,
{
    reveal_strlit("admin");
    reveal_strlit("bob");
    assert(ascii_lower("admin"@) =~= "admin"@);
    assert(ascii_lower("bob"@) =~= "bob"@);
}

/// The default users as a fixed-size array.
pub fn get_users_array() -> (users: [User; 2])
    ensures
        users@.map_values(|u: User| u@) == default_users_seq(),
{
    proof {
        lemma_default_names();
    }
    let users = [
        User::new("admin", "password", LoginRole::Admin),
        User::new("bob", "password", LoginRole::User),
    ];
    assert(users@.map_values(|u: User| u@) =~= default_users_seq());
    users
}

/// The default users as a vector.
pub fn get_users_vector() -> (users: Vec<User>)
    ensures
        users@.map_values(|u: User| u@) == default_users_seq(),
{
    proof {
        lemma_default_names();
    }
    let users = vec![
        User::new("admin", "password", LoginRole::Admin),
        User::new("bob", "password", LoginRole::User),
    ];
    assert(users@.map_values(|u: User| u@) =~= default_users_seq());
    users
}

/// Compares a stored user with a login attempt.
fn check_user(user: &User, password: &str) -> (res: Option<LoginAction>)
    ensures
        res == check_password(user@, password@),
{
    let hashed = hash_password(password);
    if user.password == hashed {
        Some(LoginAction::Granted(user.role))
    } else {
        Some(LoginAction::Denied)
    }
}

/// Login against a slice of users, the first with a matching name deciding.
fn login_slice(users: &[User], username: &str, password: &str) -> (res: Option<LoginAction>)
    ensures
        res == login_in_seq(users@.map_values(|u: User| u@), lowercase(username@), password@),
        is_ascii_chars(username@) ==> lowercase(username@) == ascii_lower(username@),
{
    let key = to_lowercase(username);
    let ghost views = users@.map_values(|u: User| u@);
    assert(views.skip(0) =~= views);
    let mut i: usize = 0;
    while i < users.len()
        invariant
            i <= users@.len(),
            views == users@.map_values(|u: User| u@),
            key@ == lowercase(username@),
            is_ascii_chars(username@) ==> lowercase(username@) == ascii_lower(username@),
            login_in_seq(views, key@, password@) == login_in_seq(views.skip(i as int), key@, password@),
        decreases users@.len() - i,
    {
        assert(views.skip(i as int)[0] == users@[i as int]@);
        assert(views.skip(i as int).drop_first() =~= views.skip(i + 1));
        if users[i].username == key {
            return check_user(&users[i], password);
        }
        i = i + 1;
    }
    assert(views.skip(i as int).len() == 0);
    None
}

/// Login against the default users held in an array.
pub fn login_array(username: &str, password: &str) -> (res: Option<LoginAction>)
    ensures
        res == login_in_seq(default_users_seq(), lowercase(username@), password@),
        is_ascii_chars(username@) ==> res == login_in_seq(
            default_users_seq(),
            ascii_lower(username@),
            password@,
        ),
{
    let users: [User; 2] = get_users_array();
    login_slice(&users, username, password)
}

/// Login against the default users held in a vector.
pub fn login_vector(username: &str, password: &str) -> (res: Option<LoginAction>)
    ensures
        res == login_in_seq(default_users_seq(), lowercase(username@), password@),
        is_ascii_chars(username@) ==> res == login_in_seq(
            default_users_seq(),
            ascii_lower(username@),
            password@,
        ),
{
    let users: Vec<User> = get_users_vector();
    login_slice(users.as_slice(), username, password)
}

/// The default users keyed by their names.
pub fn get_default_users() -> (users: UserStore)
    ensures
        users.wf(),
        users@ == default_users_map(),
{
    proof {
        lemma_default_names();
    }
    let mut users = UserStore::new();
    users.insert(String::from_str("admin"), User::new("admin", "password", LoginRole::Admin));
    users.insert(String::from_str("bob"), User::new("bob", "password", LoginRole::User));
    assert(users@ =~= default_users_map());
    users
}

/// The users to work with: those that were stored, or the default users when
/// nothing was stored yet.
pub fn get_users(stored: Option<UserStore>) -> (users: UserStore)
    requires
        stored matches Some(s) ==> s.wf(),
    ensures
        users.wf(),
        users@ == match stored {
            Some(s) => s@,
            None => default_users_map(),
        },
{
    match stored {
        Some(s) => s,
        None => get_default_users(),
    }
}

/// Login against users keyed by name: the lower-cased name is looked up.
pub fn login_hashmap(users: &UserStore, username: &str, password: &str) -> (res: Option<LoginAction>)
    requires
        users.wf(),
    ensures
        res == login_in_map(users@, lowercase(username@), password@),
        is_ascii_chars(username@) ==> res == login_in_map(users@, ascii_lower(username@), password@),
{
    let key = to_lowercase(username);
    match users.get(key.as_str()) {
        Some(user) => check_user(user, password),
        None => None,
    }
}

/// Logs a user in: `None` for an unknown user, `Denied` for a wrong password,
/// otherwise `Granted` with the user's role.
pub fn login(users: &UserStore, username: &str, password: &str) -> (res: Option<LoginAction>)
    requires
        users.wf(),
    ensures
        res == login_in_map(users@, lowercase(username@), password@),
        is_ascii_chars(username@) ==> res == login_in_map(users@, ascii_lower(username@), password@),
{
    login_hashmap(users, username, password)
}

/// The three login variants agree on the default users: looking a name up in
/// the array or the vector of default users gives the same answer as looking
/// it up by key among the default users.
pub proof fn lemma_login_variants_agree(key: Seq<char>, password: Seq<char>)
    ensures
        login_in_seq(default_users_seq(), key, password) == login_in_map(default_users_map(), key, password),
{
    lemma_default_names();
    let s = default_users_seq();
    assert(s.drop_first().drop_first().len() == 0);
    assert(s.drop_first()[0] == s[1]);
    reveal_with_fuel(login_in_seq, 3);
}

/// ASCII lower-casing keeps text ASCII and lower-casing twice is lower-casing once.
pub proof fn lemma_ascii_lower_idempotent(s: Seq<char>)
    requires
        is_ascii_chars(s),
    ensures
        is_ascii_chars(ascii_lower(s)),
        ascii_lower(ascii_lower(s)) == ascii_lower(s),
{
    assert(ascii_lower(ascii_lower(s)) =~= ascii_lower(s));
}

/// For ASCII names, login does not depend on letter case in the name: the
/// name and its lower-cased form are looked up under the same key, so
/// `login(users, name, p)` and `login(users, lower-cased name, p)` agree.
pub proof fn lemma_login_name_case_insensitive(
    users: Map<Seq<char>, UserView>,
    name: Seq<char>,
    password: Seq<char>,
)
    requires
        is_ascii_chars(name),
    ensures
        is_ascii_chars(ascii_lower(name)),
        login_in_map(users, ascii_lower(ascii_lower(name)), password) == login_in_map(
            users,
            ascii_lower(name),
            password,
        ),
{
    lemma_ascii_lower_idempotent(name);
}

/// What the login prompt answers after one attempt.
#[derive(Debug, PartialEq, Eq, Clone, Copy, Structural)]
pub enum LoginReply {
    /// Welcome the user as admin; the session ends.
    WelcomeAdmin,
    /// Welcome the user as an ordinary user; the session ends.
    WelcomeUser,
    /// Report a wrong name or password and ask again.
    Incorrect,
    /// Report a wrong name or password, then too many failures; the session ends.
    TooManyFailures,
    /// No users are known under that name; ask again.
    NewUserSystem,
}

/// The prompt's reply to a login result, counting failed attempts in
/// `tries`; the third failure ends the session.
pub fn login_prompt_step(tries: &mut i32, result: Option<LoginAction>) -> (reply: LoginReply)
    requires
        *old(tries) < i32::MAX,
    ensures
        match result {
            Some(LoginAction::Granted(LoginRole::Admin)) => reply == LoginReply::WelcomeAdmin
                && *final(tries) == *old(tries),
            Some(LoginAction::Granted(LoginRole::User)) => reply == LoginReply::WelcomeUser
                && *final(tries) == *old(tries),
            Some(LoginAction::Denied) => {
                &&& *final(tries) == *old(tries) + 1
                &&& reply == if *old(tries) + 1 >= 3 {
                    LoginReply::TooManyFailures
                } else {
                    LoginReply::Incorrect
                }
            },
            None => reply == LoginReply::NewUserSystem && *final(tries) == *old(tries),
        },
{
    match result {
        Some(LoginAction::Granted(LoginRole::Admin)) => LoginReply::WelcomeAdmin,
        Some(LoginAction::Granted(LoginRole::User)) => LoginReply::WelcomeUser,
        Some(LoginAction::Denied) => {
            *tries = *tries + 1;
            if *tries >= 3 {
                LoginReply::TooManyFailures
            } else {
                LoginReply::Incorrect
            }
        },
        None => LoginReply::NewUserSystem,
    }
}

} // verus!
