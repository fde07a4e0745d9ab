use rust_examples::authentication::{get_default_users, login, LoginAction, LoginRole};
use rust_examples::login_manager::{add_user, change_password, delete_user};
use rust_examples::user_store::UserStore;

#[test]
fn added_user_can_log_in() {
    let mut users = get_default_users();
    add_user(&mut users, "carol".to_string(), "secret".to_string(), true);
    assert_eq!(3, users.len());
    assert_eq!(
        Some(LoginAction::Granted(LoginRole::Admin)),
        login(&users, "Carol", "secret")
    );
    assert_eq!(Some(LoginAction::Denied), login(&users, "carol", "password"));
}

#[test]
fn added_user_logs_in_under_its_name() {
    let mut users = UserStore::new();
    add_user(&mut users, "Al".to_string(), "pw".to_string(), true);
    assert!(users.contains_key("al"));
    assert!(!users.contains_key("Al"));
    assert_eq!("al", users.get("al").unwrap().username);
    assert_eq!(Some(LoginAction::Granted(LoginRole::Admin)), login(&users, "Al", "pw"));
    assert_eq!(Some(LoginAction::Granted(LoginRole::Admin)), login(&users, "AL", "pw"));
    assert!(change_password(&mut users, "al".to_string(), "new".to_string()));
    assert_eq!(Some(LoginAction::Denied), login(&users, "Al", "pw"));
    assert_eq!(Some(LoginAction::Granted(LoginRole::Admin)), login(&users, "Al", "new"));
    assert!(delete_user(&mut users, "al".to_string()));
    assert_eq!(None, login(&users, "Al", "new"));
    assert_eq!(0, users.len());
}

#[test]
fn delete_and_change_use_the_name_as_given() {
    let mut users = get_default_users();
    assert!(!delete_user(&mut users, "Bob".to_string()));
    assert!(!change_password(&mut users, "Bob".to_string(), "x".to_string()));
    assert_eq!(2, users.len());
    assert_eq!(
        Some(LoginAction::Granted(LoginRole::User)),
        login(&users, "bob", "password")
    );
}

#[test]
fn adding_again_replaces() {
    let mut users = get_default_users();
    add_user(&mut users, "bob".to_string(), "new".to_string(), true);
    assert_eq!(2, users.len());
    assert_eq!(
        Some(LoginAction::Granted(LoginRole::Admin)),
        login(&users, "bob", "new")
    );
}

#[test]
fn deleted_user_is_unknown() {
    let mut users = get_default_users();
    assert!(delete_user(&mut users, "bob".to_string()));
    assert_eq!(1, users.len());
    assert_eq!(None, login(&users, "bob", "password"));
    assert_eq!(
        Some(LoginAction::Granted(LoginRole::Admin)),
        login(&users, "admin", "password")
    );
    assert!(!delete_user(&mut users, "bob".to_string()));
    assert_eq!(1, users.len());
}

#[test]
fn changed_password_replaces_old_one() {
    let mut users = get_default_users();
    assert!(change_password(&mut users, "admin".to_string(), "hunter2".to_string()));
    assert_eq!(
        Some(LoginAction::Granted(LoginRole::Admin)),
        login(&users, "admin", "hunter2")
    );
    assert_eq!(Some(LoginAction::Denied), login(&users, "admin", "password"));
    assert!(!change_password(&mut users, "nobody".to_string(), "x".to_string()));
    assert_eq!(2, users.len());
}

#[test]
fn store_lists_names_in_insertion_order() {
    let mut users = UserStore::new();
    add_user(&mut users, "b".to_string(), "1".to_string(), false);
    add_user(&mut users, "a".to_string(), "2".to_string(), false);
    add_user(&mut users, "c".to_string(), "3".to_string(), false);
    users.remove("a");
    let names: Vec<String> = (0..users.len()).map(|i| users.name_at(i).clone()).collect();
    assert_eq!(vec!["b".to_string(), "c".to_string()], names);
    users.remove("zzz");
    assert_eq!(2, users.len());
}
