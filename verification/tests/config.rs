use http_server::config::{BasicAuth, ConfigError, Service, ServiceKind};

#[test]
fn reads_basic_auth_credentials() {
    let auth = BasicAuth::from_str("john:appleseed").unwrap();
    assert_eq!(auth.username, "john");
    assert_eq!(auth.password, "appleseed");

    let empty = BasicAuth::from_str(":").unwrap();
    assert_eq!(empty.username, "");
    assert_eq!(empty.password, "");
}

#[test]
fn basic_auth_needs_exactly_one_colon() {
    assert!(matches!(BasicAuth::from_str("john"), Err(ConfigError::MissingColonSeparator)));
    assert!(matches!(BasicAuth::from_str("a:b:c"), Err(ConfigError::MissingColonSeparator)));
    assert_eq!(
        ConfigError::MissingColonSeparator.message(),
        "Expected a string with a colon to separe username and password for Basic Authentication."
    );
}

#[test]
fn services_serve_the_current_directory() {
    match Service::from_kind(ServiceKind::FileServer) {
        Service::FileServer { root_directory, basic_auth } => {
            assert_eq!(root_directory, "./");
            assert!(basic_auth.is_none());
        }
        _ => panic!("expected the file server"),
    }
    match Service::from_kind(ServiceKind::FileExplorer) {
        Service::FileExplorer { root_directory, basic_auth } => {
            assert_eq!(root_directory, "./");
            assert!(basic_auth.is_none());
        }
        _ => panic!("expected the file explorer"),
    }
}
