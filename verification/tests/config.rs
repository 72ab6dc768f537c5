//! The configuration.

use overfwd::auth::Secret;
use overfwd::config::{parse_bool, Config, ConfigError, EnvVars, DEFAULT_BIND};
use overfwd::net::{parse_socket, IpAddr, SocketAddr};

fn vars() -> EnvVars {
    EnvVars {
        bind: None,
        require_api_key: None,
        api_key: None,
        enable_mcp: None,
        block_private_endpoints: None,
    }
}

fn some(s: &str) -> Option<String> {
    Some(s.to_string())
}

fn err_of(v: &EnvVars) -> ConfigError {
    match Config::from_env(v) {
        Ok(_) => panic!("expected an error"),
        Err(e) => e,
    }
}

#[test]
fn parse_bool_accepts_common_spellings() {
    for t in ["true", "TRUE", "1", "yes", "on", " On "] {
        assert_eq!(parse_bool(t), Some(true), "{t}");
    }
    for f in ["false", "FALSE", "0", "no", "off"] {
        assert_eq!(parse_bool(f), Some(false), "{f}");
    }
    assert_eq!(parse_bool("maybe"), None);
}

#[test]
fn default_bind_is_not_the_greenmail_mgmt_port() {
    let chars: Vec<char> = DEFAULT_BIND.chars().collect();
    let bind = parse_socket(&chars).unwrap();
    assert_ne!(bind.port, 8080, "must not clash with the management interface");
}

#[test]
fn debug_redacts_api_key() {
    let cfg = Config {
        bind: SocketAddr { ip: IpAddr::V4([0, 0, 0, 0]), port: 8000, scope_id: 0 },
        require_api_key: true,
        api_key: Some(Secret::new("super-secret-key".to_string())),
        enable_mcp: true,
        block_private_endpoints: false,
    };
    let rendered = cfg.debug_text();
    assert!(
        !rendered.contains("super-secret-key"),
        "debug text leaked the api_key: {rendered}"
    );
    assert_eq!(
        rendered,
        "Config { bind: 0.0.0.0:8000, require_api_key: true, \
         api_key: Some(Secret(***redacted***)), enable_mcp: true, \
         block_private_endpoints: false }"
    );
}

#[test]
fn defaults_hold_where_nothing_is_set() {
    let c = Config::from_env(&vars()).ok().unwrap();
    assert_eq!(c.bind.to_text(), "0.0.0.0:8000");
    assert!(!c.require_api_key);
    assert!(c.api_key.is_none());
    assert!(c.enable_mcp);
    assert!(!c.block_private_endpoints);
}

#[test]
fn everything_can_be_set() {
    let c = Config::from_env(&EnvVars {
        bind: some("[::1]:9000"),
        require_api_key: some("yes"),
        api_key: some("k"),
        enable_mcp: some("off"),
        block_private_endpoints: some("TRUE"),
    })
    .ok()
    .unwrap();
    assert_eq!(c.bind.to_text(), "[::1]:9000");
    assert!(c.require_api_key);
    assert_eq!(c.api_key.unwrap().expose(), "k");
    assert!(!c.enable_mcp);
    assert!(c.block_private_endpoints);
}

#[test]
fn a_required_key_has_to_be_there() {
    for api_key in [None, some("")] {
        let e = err_of(&EnvVars { require_api_key: some("true"), api_key, ..vars() });
        assert_eq!(e, ConfigError::MissingApiKey);
        assert_eq!(
            e.to_text(),
            "OVERFWD_REQUIRE_API_KEY=true but OVERFWD_API_KEY is unset — refusing to start a \
             gateway that requires a key it does not have"
        );
    }
}

#[test]
fn a_key_that_is_not_required_is_not_kept() {
    for (require, kept) in [(None, false), (some("false"), false), (some("true"), true)] {
        let vars = EnvVars { require_api_key: require, api_key: some("k"), ..vars() };
        let c = Config::from_env(&vars).ok().unwrap();
        assert_eq!(c.require_api_key, kept);
        assert_eq!(c.api_key.map(|k| k.expose().to_string()), kept.then(|| "k".to_string()));
    }
}

#[test]
fn what_cannot_be_read_is_named() {
    let e = err_of(&EnvVars { bind: some("localhost"), ..vars() });
    assert_eq!(
        e.to_text(),
        "OVERFWD_BIND='localhost' is not a valid host:port address: invalid socket address syntax"
    );
    let e = err_of(&EnvVars { require_api_key: some("maybe"), ..vars() });
    assert_eq!(
        e.to_text(),
        "OVERFWD_REQUIRE_API_KEY='maybe' is not a valid boolean (use true/false)"
    );
    let e = err_of(&EnvVars { enable_mcp: some(""), ..vars() });
    assert_eq!(e.to_text(), "OVERFWD_ENABLE_MCP='' is not a valid boolean (use true/false)");
    let e = err_of(&EnvVars { block_private_endpoints: some("2"), ..vars() });
    assert_eq!(
        e.to_text(),
        "OVERFWD_BLOCK_PRIVATE_ENDPOINTS='2' is not a valid boolean (use true/false)"
    );
}

#[test]
fn the_first_fault_counts() {
    let e = err_of(&EnvVars {
        bind: some("x"),
        require_api_key: some("x"),
        api_key: None,
        enable_mcp: some("x"),
        block_private_endpoints: some("x"),
    });
    assert_eq!(e, ConfigError::InvalidBind { value: "x".to_string() });
    let e = err_of(&EnvVars { require_api_key: some("1"), enable_mcp: some("x"), ..vars() });
    assert_eq!(e, ConfigError::MissingApiKey);
}
