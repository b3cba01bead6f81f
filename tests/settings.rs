use settlers_server::db::entities::auth::Kind;
use settlers_server::db::entities::auth_method::Method;
use settlers_server::settings::{
    apply_defaults, join_path, parent_path, prepare_check_path, search_config_current_recurse,
    Database,
};

fn database() -> Database {
    Database {
        url: "sqlite::memory:".to_string(),
        min_connections: None,
        max_connections: Some(8),
        connect_timeout: None,
        acquire_timeout: Some(3),
        idle_timeout: None,
        max_lifetime: None,
    }
}

#[test]
fn defaults_fill_only_unset_values() {
    let mut log = None;
    let mut db = database();
    apply_defaults(&mut log, &mut db);
    assert_eq!(log, Some("error".to_string()));
    assert_eq!(db.min_connections, Some(1));
    assert_eq!(db.max_connections, Some(8));
    assert_eq!(db.connect_timeout, Some(10));
    assert_eq!(db.acquire_timeout, Some(3));
    assert_eq!(db.idle_timeout, Some(10));
    assert_eq!(db.max_lifetime, Some(10));
    let mut log = Some("debug".to_string());
    let mut db = database();
    db.max_connections = None;
    apply_defaults(&mut log, &mut db);
    assert_eq!(log, Some("debug".to_string()));
    assert_eq!(db.max_connections, Some(32));
}

#[test]
fn config_search_goes_up_to_the_root() {
    assert_eq!(search_config_current_recurse("/home/user/game"), vec![
        "/home/user/game/settlers.toml".to_string(),
        "/home/user/settlers.toml".to_string(),
        "/home/settlers.toml".to_string(),
        "/settlers.toml".to_string(),
    ]);
    assert_eq!(search_config_current_recurse("/"), vec!["/settlers.toml".to_string()]);
    assert_eq!(search_config_current_recurse("a"), vec![
        "a/settlers.toml".to_string(),
        "settlers.toml".to_string(),
    ]);
}

#[test]
fn parents_and_joins() {
    assert_eq!(parent_path("/a/b"), Some("/a".to_string()));
    assert_eq!(parent_path("/a"), Some("/".to_string()));
    assert_eq!(parent_path("/"), None);
    assert_eq!(parent_path(""), None);
    assert_eq!(parent_path("name"), Some(String::new()));
    assert_eq!(join_path("/", "x"), "/x");
    assert_eq!(join_path("", "x"), "x");
    assert_eq!(join_path("/a", "x"), "/a/x");
}

#[test]
fn configured_paths_are_made_absolute() {
    assert_eq!(prepare_check_path("/srv/public", "/home/u"), "/srv/public");
    assert_eq!(prepare_check_path("client/dist", "/home/u"), "/home/u/client/dist");
}

#[test]
fn stored_codes_of_kinds_and_methods() {
    assert_eq!(Kind::Email.code(), 1);
    assert_eq!(Kind::from_code(2), Some(Kind::Telegram));
    assert_eq!(Kind::from_code(3), None);
    assert_eq!(Method::Password.code(), 0);
    assert_eq!(Method::from_code(1), Some(Method::Email));
    assert_eq!(Method::from_code(9), None);
}
