use clipboard_vault::config::{Config, ConfigInput};

fn input() -> ConfigInput {
    ConfigInput {
        port: None,
        database_url: Some("postgres://vault@db/vault".into()),
        database_max_connections: None,
        upload_root: None,
        public_base_url: None,
        auth_internal_url: None,
        auth_bridge_secret: Some("0123456789abcdef0123456789abcdef".into()),
        server_max_upload_bytes: None,
        legacy_max_upload_bytes: None,
        upload_disk_reserve_bytes: None,
        tus_chunk_size_bytes: None,
        tus_session_ttl_seconds: None,
    }
}

fn error(input: ConfigInput) -> String {
    match Config::from_vars(input) {
        Ok(_) => panic!("settings were accepted"),
        Err(message) => message,
    }
}

#[test]
fn defaults_fill_every_optional_setting() {
    let config = Config::from_vars(input()).unwrap();
    assert_eq!(config.port, 8080);
    assert_eq!(config.database_url, "postgres://vault@db/vault");
    assert_eq!(config.database_max_connections, 20);
    assert_eq!(config.upload_root, "/data/uploads");
    assert_eq!(config.public_base_url, "http://localhost:8080");
    assert_eq!(config.auth_internal_url, "http://auth:3001");
    assert_eq!(config.server_max_upload_bytes, 10_737_418_240);
    assert_eq!(config.legacy_max_upload_bytes, 104_857_600);
    assert_eq!(config.upload_disk_reserve_bytes, 21_474_836_480);
    assert_eq!(config.tus_chunk_size_bytes, 16_777_216);
    assert_eq!(config.tus_session_ttl_seconds, 604_800);
}

#[test]
fn urls_lose_their_trailing_slashes() {
    let mut raw = input();
    raw.public_base_url = Some("https://vault.example.com///".into());
    raw.auth_internal_url = Some("http://auth:3001/".into());
    raw.port = Some("+9000".into());
    let config = Config::from_vars(raw).unwrap();
    assert_eq!(config.public_base_url, "https://vault.example.com");
    assert_eq!(config.auth_internal_url, "http://auth:3001");
    assert_eq!(config.port, 9000);
}

#[test]
fn the_secret_is_required_and_long() {
    let mut raw = input();
    raw.auth_bridge_secret = None;
    assert_eq!(error(raw), "missing required environment variable AUTH_BRIDGE_SECRET");
    let mut raw = input();
    raw.auth_bridge_secret = Some("short".into());
    assert_eq!(error(raw), "AUTH_BRIDGE_SECRET must contain at least 32 characters");
}

#[test]
fn invalid_numbers_name_their_variable() {
    let mut raw = input();
    raw.port = Some("70000".into());
    assert_eq!(error(raw), "invalid PORT");
    let mut raw = input();
    raw.database_max_connections = Some("-1".into());
    assert_eq!(error(raw), "invalid DATABASE_MAX_CONNECTIONS");
    let mut raw = input();
    raw.tus_chunk_size_bytes = Some("16 MiB".into());
    assert_eq!(error(raw), "invalid TUS_CHUNK_SIZE_BYTES");
}

#[test]
fn the_database_url_is_required() {
    let mut raw = input();
    raw.database_url = None;
    assert_eq!(error(raw), "missing required environment variable DATABASE_URL");
}

#[test]
fn limits_must_nest() {
    let mut raw = input();
    raw.server_max_upload_bytes = Some("0".into());
    assert_eq!(error(raw), "SERVER_MAX_UPLOAD_BYTES must be between 1 and 9223372036854775807");
    let mut raw = input();
    raw.legacy_max_upload_bytes = Some("20000000000".into());
    assert_eq!(
        error(raw),
        "LEGACY_MAX_UPLOAD_BYTES must fit the request platform and not exceed the server maximum"
    );
    let mut raw = input();
    raw.tus_chunk_size_bytes = Some("209715200".into());
    assert_eq!(
        error(raw),
        "TUS_CHUNK_SIZE_BYTES must be positive, fit memory, and not exceed the legacy request limit"
    );
    let mut raw = input();
    raw.tus_session_ttl_seconds = Some("0".into());
    assert_eq!(error(raw), "TUS_SESSION_TTL_SECONDS is outside the supported range");
}
