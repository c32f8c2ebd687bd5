use chennix::assets::{admin_asset, asset_path, cache_control, serve_or_start_page};
use chennix::config::{
    apply_overrides, default_db_path, default_host, default_log_level, default_port,
    default_streaming_timeout, default_upstream_timeout, ensure_default_admin, parse_number,
    AdminBootstrap, AppConfig, BootstrapConfig, DatabaseConfig, DefaultAdmin, EnvOverrides, LogConfig,
    ServerConfig, TlsConfig,
};

fn config() -> AppConfig {
    AppConfig {
        server: ServerConfig {
            host: default_host(),
            port: default_port(),
            tls: TlsConfig::default(),
            upstream_timeout_secs: default_upstream_timeout(),
            streaming_timeout_secs: default_streaming_timeout(),
        },
        log: LogConfig::default(),
        bootstrap: BootstrapConfig { config_file: "boot.yaml".into() },
        database: DatabaseConfig::default(),
    }
}

fn no_overrides() -> EnvOverrides {
    EnvOverrides {
        port: None,
        host: None,
        db_path: None,
        upstream_timeout_secs: None,
        streaming_timeout_secs: None,
        rust_log: None,
    }
}

#[test]
fn defaults_of_the_server() {
    let c = apply_overrides(config(), no_overrides());
    assert_eq!(c, config());
    assert_eq!(c.server.host, "0.0.0.0");
    assert_eq!(c.server.port, 8080);
    assert!(!c.server.tls.enabled);
    assert_eq!(c.server.upstream_timeout_secs, 60);
    assert_eq!(c.server.streaming_timeout_secs, 300);
    assert_eq!(c.log.level, "info");
    assert_eq!(c.database.path, "/data/chennix.db");
    assert_eq!(default_log_level(), "info");
    assert_eq!(default_db_path(), "/data/chennix.db");
}

#[test]
fn the_environment_overrides_settings() {
    let c = apply_overrides(
        config(),
        EnvOverrides {
            port: Some("9090".into()),
            host: Some("".into()),
            db_path: Some("x.db".into()),
            upstream_timeout_secs: Some("+7".into()),
            streaming_timeout_secs: Some("soon".into()),
            rust_log: Some("debug".into()),
        },
    );
    assert_eq!(c.server.port, 9090);
    assert_eq!(c.server.host, "");
    assert_eq!(c.database.path, "x.db");
    assert_eq!(c.server.upstream_timeout_secs, 7);
    assert_eq!(c.server.streaming_timeout_secs, 300);
    assert_eq!(c.log.level, "debug");
    assert_eq!(c.bootstrap.config_file, "boot.yaml");
    let c = apply_overrides(config(), EnvOverrides { port: Some("65536".into()), ..no_overrides() });
    assert_eq!(c.server.port, 8080);
}

#[test]
fn numbers_are_read_as_std_reads_them() {
    let texts = [
        "", "+", "-", "0", "-0", "00", "007", "+5", "++5", "65535", "65536", " 1", "1 ", "1_000", "٣",
        "18446744073709551615", "18446744073709551616", "99999999999999999999999999", "0x10",
    ];
    for t in texts {
        assert_eq!(parse_number(t, u64::MAX), t.parse::<u64>().ok(), "{:?}", t);
        assert_eq!(
            parse_number(t, u16::MAX as u64),
            t.parse::<u16>().ok().map(|n| n as u64),
            "{:?}",
            t
        );
    }
}

#[test]
fn test_ensure_default_admin_creates_admin_when_empty() {
    let action = ensure_default_admin(0, Some("test-password-123"), None);
    assert_eq!(
        action,
        AdminBootstrap::Create(DefaultAdmin {
            username: "admin".into(),
            password: "test-password-123".into(),
            role: 100,
            status: 1,
            quota: 999_999_999,
            group: "default".into(),
        })
    );
}

#[test]
fn test_ensure_default_admin_skips_when_no_env_var() {
    assert_eq!(ensure_default_admin(0, None, None), AdminBootstrap::Nothing);
}

#[test]
fn test_ensure_default_admin_noop_when_users_exist() {
    assert_eq!(ensure_default_admin(1, Some("p"), None), AdminBootstrap::Nothing);
}

#[test]
fn test_ensure_default_admin_idempotent() {
    assert!(matches!(
        ensure_default_admin(0, Some("test-pass-idempotent"), None),
        AdminBootstrap::Create(_)
    ));
    // once it is there, with its hash, nothing is done any more
    assert_eq!(
        ensure_default_admin(1, Some("test-pass-idempotent"), Some("$2b$12$hash")),
        AdminBootstrap::Nothing
    );
}

#[test]
fn test_ensure_default_admin_skips_when_env_var_empty() {
    assert_eq!(ensure_default_admin(0, Some(""), None), AdminBootstrap::Nothing);
}

#[test]
fn a_placeholder_hash_is_replaced() {
    let hash = Some("PLACEHOLDER_BCRYPT_HASH");
    assert_eq!(
        ensure_default_admin(3, Some("secret"), hash),
        AdminBootstrap::SetPassword("secret".into())
    );
    assert_eq!(
        ensure_default_admin(3, None, hash),
        AdminBootstrap::SetPassword("admin123".into())
    );
    assert_eq!(
        ensure_default_admin(3, Some(""), hash),
        AdminBootstrap::SetPassword("admin123".into())
    );
}

#[test]
fn paths_of_the_interface_mean_files() {
    assert_eq!(admin_asset("/admin/app.js").as_deref(), Some("app.js"));
    assert_eq!(admin_asset("/admin//admin/x").as_deref(), Some("x"));
    assert_eq!(admin_asset("/admin/").as_deref(), Some(""));
    assert_eq!(admin_asset("/admin").as_deref(), Some("/admin"));
    assert_eq!(admin_asset("/admin/api/users"), None);
    assert_eq!(admin_asset("/admin/apis").as_deref(), Some("apis"));
    assert_eq!(asset_path("//assets/x.css"), "assets/x.css");
    assert_eq!(asset_path("x"), "x");
}

#[test]
fn paths_are_stripped_as_std_strips_them() {
    for p in ["", "/", "/admin/", "/admin/admin/", "/admin//admin/a", "x/admin/", "///a//", "/admin/x/admin/"] {
        assert_eq!(asset_path(p), p.trim_start_matches('/'), "{}", p);
        let file = p.trim_start_matches("/admin/");
        assert_eq!(admin_asset(p).as_deref(), Some(file), "{}", p);
    }
}

#[test]
fn pages_are_not_cached() {
    assert_eq!(cache_control("index.html"), "no-cache");
    assert_eq!(cache_control("a/b.html"), "no-cache");
    assert_eq!(cache_control(".html"), "no-cache");
    assert_eq!(cache_control("html"), "public, max-age=86400");
    assert_eq!(cache_control("app.js"), "public, max-age=86400");
    assert_eq!(serve_or_start_page("a.js", true, true).as_deref(), Some("a.js"));
    assert_eq!(serve_or_start_page("a.js", false, true).as_deref(), Some("index.html"));
    assert_eq!(serve_or_start_page("a.js", false, false), None);
}
