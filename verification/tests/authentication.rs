use rust_examples::authentication::{
    get_default_users, get_users, get_users_array, get_users_vector, greet_user, hash_password,
    login, login_array, login_hashmap, login_prompt_step, login_vector, LoginAction, LoginReply,
    LoginRole, User,
};
use rust_examples::user_store::UserStore;

#[test]
fn test_greet_user() {
    assert_eq!("Hello will", greet_user("will"))
}

#[test]
fn test_login() {
    let users = get_default_users();
    assert_eq!(
        Some(LoginAction::Granted(LoginRole::Admin)),
        login(&users, "AdMiN", "password")
    );
    assert_eq!(
        Some(LoginAction::Granted(LoginRole::User)),
        login(&users, "BoB", "password")
    );
    assert_eq!(Some(LoginAction::Denied), login(&users, "BoB", "nope"));
    assert_eq!(None, login(&users, "user", "password"));
    assert_eq!(Some(LoginAction::Denied), login(&users, "admin", "nope"));
}

#[test]
fn greet_user_empty_name() {
    assert_eq!("Hello ", greet_user(""));
}

#[test]
fn hash_password_known_digests() {
    assert_eq!(
        "5E884898DA28047151D0E56F8DC6292773603D0D6AABBDD62A11EF721D1542D8",
        hash_password("password")
    );
    assert_eq!(
        "E3B0C44298FC1C149AFBF4C8996FB92427AE41E4649B934CA495991B7852B855",
        hash_password("")
    );
}

#[test]
fn hash_password_shape() {
    let h = hash_password("some longer pass phrase ✓");
    assert_eq!(64, h.len());
    assert!(h.chars().all(|c| c.is_ascii_digit() || ('A'..='F').contains(&c)));
}

#[test]
fn user_new_lowercases_and_hashes() {
    let u = User::new("AdMiN", "password", LoginRole::Admin);
    assert_eq!("admin", u.username);
    assert_eq!(hash_password("password"), u.password);
    assert_eq!(LoginRole::Admin, u.role);
    let v = User::new("ÄBC", "x", LoginRole::User);
    assert_eq!("äbc", v.username);
}

#[test]
fn default_user_lists() {
    let a = get_users_array();
    let v = get_users_vector();
    assert_eq!("admin", a[0].username);
    assert_eq!("bob", a[1].username);
    assert_eq!(LoginRole::User, a[1].role);
    assert_eq!(2, v.len());
    assert_eq!(a[0].password, v[0].password);
}

#[test]
fn login_variants_agree_on_defaults() {
    let users = get_default_users();
    for name in ["admin", "AdMiN", "bob", "BOB", "user", "", "admin "] {
        for password in ["password", "nope", ""] {
            let by_array = login_array(name, password);
            assert_eq!(by_array, login_vector(name, password));
            assert_eq!(by_array, login_hashmap(&users, name, password));
        }
    }
}

#[test]
fn get_users_without_stored_gives_defaults() {
    let users = get_users(None);
    assert_eq!(2, users.len());
    assert!(users.contains_key("admin"));
    assert!(users.contains_key("bob"));
}

#[test]
fn get_users_keeps_stored() {
    let mut stored = UserStore::new();
    stored.insert("zoe".to_string(), User::new("zoe", "pw", LoginRole::User));
    let users = get_users(Some(stored));
    assert_eq!(1, users.len());
    assert_eq!(
        Some(LoginAction::Granted(LoginRole::User)),
        login(&users, "ZOE", "pw")
    );
    assert_eq!(None, login(&users, "admin", "password"));
}

#[test]
fn passwords_are_case_sensitive_names_are_not() {
    let users = get_default_users();
    assert_eq!(Some(LoginAction::Denied), login(&users, "admin", "PASSWORD"));
    assert_eq!(login(&users, "ADMIN", "password"), login(&users, "admin", "password"));
}

#[test]
fn login_prompt_counts_failures() {
    let mut tries = 0;
    assert_eq!(LoginReply::NewUserSystem, login_prompt_step(&mut tries, None));
    assert_eq!(LoginReply::Incorrect, login_prompt_step(&mut tries, Some(LoginAction::Denied)));
    assert_eq!(LoginReply::Incorrect, login_prompt_step(&mut tries, Some(LoginAction::Denied)));
    assert_eq!(2, tries);
    assert_eq!(
        LoginReply::WelcomeUser,
        login_prompt_step(&mut tries, Some(LoginAction::Granted(LoginRole::User)))
    );
    assert_eq!(
        LoginReply::TooManyFailures,
        login_prompt_step(&mut tries, Some(LoginAction::Denied))
    );
    assert_eq!(3, tries);
    let mut fresh = 0;
    assert_eq!(
        LoginReply::WelcomeAdmin,
        login_prompt_step(&mut fresh, Some(LoginAction::Granted(LoginRole::Admin)))
    );
}
