use blitzortung_srv::config::{
    config_candidates, default_config_paths, explicit_config_path, get_setting, get_variable, parse_ini,
    quote_conninfo_value, Config, Protocol,
};
use blitzortung_srv::service_log::DEFAULT_GEOIP_DB;

fn vars(pairs: &[(&str, &str)]) -> Vec<(String, String)> {
    pairs.iter().map(|(k, v)| (k.to_string(), v.to_string())).collect()
}

fn file(content: &str) -> Option<(String, String)> {
    Some(("/tmp/config.ini".to_string(), content.to_string()))
}

#[test]
fn env_only_config() {
    let vars = vars(&[("BO_SERVICE_PORT", "1234"), ("BO_DB_HOST", "pg.example.com")]);
    let config = Config::from_env_with(&vars, None);
    assert_eq!(config.port, 1234);
    assert_eq!(config.db_host, "pg.example.com");
    assert_eq!(config.db_port, "5432");
    assert_eq!(config.db_name, "blitzortung");
    assert_eq!(config.db_connection_count, 3);
}

#[test]
fn ini_file_config() {
    let config = Config::from_env_with(
        &[],
        file(
            "[webservice]\nport = 7070\n[db]\nhost = db.local\nport = 5433\ndbname = strikes\n\
             username = u\npassword = p\nconnection_count = 7\n",
        ),
    );
    assert_eq!(config.port, 7070);
    assert_eq!(config.db_host, "db.local");
    assert_eq!(config.db_port, "5433");
    assert_eq!(config.db_name, "strikes");
    assert_eq!(config.db_user, "u");
    assert_eq!(config.db_password, "p");
    assert_eq!(config.db_connection_count, 7);
}

#[test]
fn protocol_defaults_to_http_and_reads_ini_and_env() {
    // Default.
    assert_eq!(Config::default().protocol, Protocol::Http);
    assert_eq!(Protocol::default(), Protocol::Http);

    // INI `[webservice] protocol`.
    let ini = "[webservice]\nprotocol = lsp\n";
    assert_eq!(Config::from_env_with(&[], file(ini)).protocol, Protocol::Lsp);

    // Env overrides the INI.
    let env = vars(&[("BO_SERVICE_PROTOCOL", "http")]);
    assert_eq!(Config::from_env_with(&env, file(ini)).protocol, Protocol::Http);
}

#[test]
fn protocol_parse_accepts_aliases() {
    assert_eq!(Protocol::parse("http"), Some(Protocol::Http));
    assert_eq!(Protocol::parse("LSP"), Some(Protocol::Lsp));
    assert_eq!(Protocol::parse("netstring"), Some(Protocol::Lsp));
    assert_eq!(Protocol::parse("bogus"), None);
}

#[test]
fn env_overrides_ini() {
    let env = vars(&[("BO_DB_HOST", "override.example.com"), ("BO_DB_CONNECTION_COUNT", "12")]);
    let config =
        Config::from_env_with(&env, file("[webservice]\nport = 7070\n[db]\nhost = db.local\n"));
    assert_eq!(config.port, 7070);
    assert_eq!(config.db_host, "override.example.com");
    assert_eq!(config.db_connection_count, 12);
}

#[test]
fn ini_file_config_reads_auth_section() {
    let config = Config::from_env_with(
        &[],
        file("[db]\nhost = db.local\n[auth]\nusername = alice\npassword = s3cret\n"),
    );
    assert_eq!(config.username(), "alice");
    assert_eq!(config.password(), "s3cret");
}

#[test]
fn statsd_defaults_to_localhost_8125() {
    let config = Config::default();
    assert_eq!(config.statsd_address(), ("localhost", 8125));
    assert_eq!(config.statsd_prefix, "org.blitzortung.service");
}

#[test]
fn ini_file_config_reads_statsd_section() {
    let config = Config::from_env_with(
        &[],
        file(
            "[db]\nhost = db.local\n[statsd]\nhost = metrics.local\nport = 9125\nprefix = my.prefix\n",
        ),
    );
    assert_eq!(config.statsd_address(), ("metrics.local", 9125));
    assert_eq!(config.statsd_prefix, "my.prefix");
}

#[test]
fn env_overrides_statsd_section() {
    let env = vars(&[
        ("BO_STATSD_HOST", "fromenv"),
        ("BO_STATSD_PORT", "2222"),
        ("BO_STATSD_PREFIX", "env.prefix"),
    ]);
    let config = Config::from_env_with(&env, file("[statsd]\nhost = fromfile\nport = 1111\n"));
    assert_eq!(config.statsd_address(), ("fromenv", 2222));
    assert_eq!(config.statsd_prefix, "env.prefix");
}

#[test]
fn env_overrides_auth_section() {
    let env = vars(&[
        ("BO_BLITZORTUNG_USERNAME", "bob"),
        ("BO_BLITZORTUNG_PASSWORD", "fromenv"),
    ]);
    let config = Config::from_env_with(&env, file("[auth]\nusername = alice\npassword = fromfile\n"));
    assert_eq!(config.username(), "bob");
    assert_eq!(config.password(), "fromenv");
}

#[test]
fn diagnostics_report_loaded_config_path() {
    let env = vars(&[("BO_CONFIG", "/tmp/config.ini")]);
    let (config, diagnostics) =
        Config::from_env_with_diagnostics(&env, file("[db]\nhost = db.local\n"));
    assert_eq!(config.db_host, "db.local");
    assert_eq!(diagnostics.loaded_path.as_deref(), Some("/tmp/config.ini"));
    assert!(!diagnostics.is_missing());
    assert!(!diagnostics.explicit_but_missing);
}

#[test]
fn diagnostics_report_missing_config_file() {
    let (config, diagnostics) = Config::from_env_with_diagnostics(&[], None);

    assert!(diagnostics.is_missing());
    assert!(!diagnostics.explicit_but_missing);
    // Defaults are still applied.
    assert_eq!(config.db_host, "localhost");
    assert_eq!(config.db_name, "blitzortung");
    // The search order is reported.
    assert_eq!(
        diagnostics.searched_paths,
        vec!["./blitzortung.conf".to_string(), "/etc/blitzortung.conf".to_string()]
    );
    assert_eq!(diagnostics.searched_paths, default_config_paths());
    let warning = diagnostics.missing_warning();
    assert!(warning.contains("no blitzortung configuration file found"));
    assert!(warning.contains("./blitzortung.conf"));
    assert!(warning.contains("config.yml is NOT read"));
}

#[test]
fn diagnostics_flag_explicit_but_missing_config() {
    let env = vars(&[("BO_CONFIG", "/nonexistent/blitzortung.conf")]);
    let (_config, diagnostics) = Config::from_env_with_diagnostics(&env, None);
    assert!(diagnostics.is_missing());
    assert!(diagnostics.explicit_but_missing);
    assert_eq!(explicit_config_path(&env).as_deref(), Some("/nonexistent/blitzortung.conf"));
    assert_eq!(explicit_config_path(&[]), None);
}

#[test]
fn an_explicit_path_bypasses_the_search() {
    let env = vars(&[("BO_CONFIG", "/nonexistent/blitzortung.conf")]);
    assert_eq!(config_candidates(&env), vec!["/nonexistent/blitzortung.conf".to_string()]);
    assert_eq!(config_candidates(&[]), default_config_paths());
    assert_eq!(config_candidates(&vars(&[("BO_CONFIG", "")])), default_config_paths());
}

#[test]
fn make_dsn_quoting_matches_python() {
    assert_eq!(quote_conninfo_value("localhost"), "localhost");
    assert_eq!(quote_conninfo_value(""), "''");
    assert_eq!(quote_conninfo_value("my host"), "'my host'");
    assert_eq!(quote_conninfo_value("pa'ss\\word"), "pa\\'ss\\\\word");
    let config = Config {
        db_host: "db server".into(),
        db_port: "5432".into(),
        db_name: "blitz".into(),
        db_user: "u".into(),
        db_password: "".into(),
        ..Default::default()
    };
    assert_eq!(
        config.db_connection_string(),
        "host='db server' port=5432 dbname=blitz user=u password=''"
    );
}

#[test]
fn service_log_directory_from_ini_and_env() {
    let ini = "[webservice]\nservicelog = /var/log/a\n";
    // INI value is used.
    let config = Config::from_env_with(&[], file(ini));
    assert_eq!(config.service_log_directory(true).as_deref(), Some("/var/log/a"));

    // Env overrides the INI.
    let env = vars(&[("BO_SERVICE_SERVICELOG", "/var/log/b")]);
    let config = Config::from_env_with(&env, file(ini));
    assert_eq!(config.service_log_directory(true).as_deref(), Some("/var/log/b"));

    // The `BO_SERVICE_LOG_DIR` alias is still honoured.
    let env = vars(&[("BO_SERVICE_LOG_DIR", "/var/log/c")]);
    let config = Config::from_env_with(&env, file(ini));
    assert_eq!(config.service_log_directory(true).as_deref(), Some("/var/log/c"));

    // An empty env value disables logging.
    let env = vars(&[("BO_SERVICE_SERVICELOG", "")]);
    let config = Config::from_env_with(&env, file(ini));
    assert_eq!(config.service_log_dir, None);
    assert_eq!(config.service_log_directory(true), None);

    // The `log_directory` INI alias is also honoured.
    let config = Config::from_env_with(&[], file("[webservice]\nlog_directory = /var/log/d\n"));
    assert_eq!(config.service_log_directory(true).as_deref(), Some("/var/log/d"));

    // A configured directory that cannot be written to is disabled.
    assert_eq!(config.service_log_directory(false), None);
}

#[test]
fn service_log_directory_is_none_without_explicit_config() {
    let config = Config::from_env_with(&[], file("[webservice]\nport = 7070\n"));
    assert_eq!(config.configured_service_log_directory(), None);
    assert_eq!(config.service_log_directory(true), None);

    assert_eq!(Config::default().configured_service_log_directory(), None);
    assert_eq!(Config::default().service_log_directory(true), None);
}

#[test]
fn service_log_directory_requires_a_writable_directory() {
    let config = Config {
        service_log_dir: Some("/var/log/blocker".to_string()),
        ..Config::default()
    };
    assert_eq!(config.service_log_directory(false), None);
    // The candidate is still reported (for the startup warning).
    assert_eq!(
        config.configured_service_log_directory().as_deref(),
        Some("/var/log/blocker")
    );
    // A writable directory is enabled.
    assert_eq!(config.service_log_directory(true).as_deref(), Some("/var/log/blocker"));
}

#[test]
fn service_geoip_db_from_ini_and_env() {
    assert_eq!(Config::default().service_geoip_db(), DEFAULT_GEOIP_DB);

    let ini = "[webservice]\ngeoip_db = /tmp/from-ini.mmdb\n";
    let config = Config::from_env_with(&[], file(ini));
    assert_eq!(config.service_geoip_db(), "/tmp/from-ini.mmdb");

    let env = vars(&[("BO_GEOIP_DB", "/tmp/from-env.mmdb")]);
    let config = Config::from_env_with(&env, file(ini));
    assert_eq!(config.service_geoip_db(), "/tmp/from-env.mmdb");

    // The `BO_SERVICE_GEOIP_DB` alias is still honoured.
    let env = vars(&[("BO_SERVICE_GEOIP_DB", "/tmp/from-alias.mmdb")]);
    let config = Config::from_env_with(&env, file(ini));
    assert_eq!(config.service_geoip_db(), "/tmp/from-alias.mmdb");
}

#[test]
fn names_of_protocols_read_back() {
    for protocol in [Protocol::Http, Protocol::Lsp] {
        assert_eq!(Protocol::parse(protocol.as_str()), Some(protocol));
    }
}

#[test]
fn ini_lines_outside_of_sections_are_skipped() {
    let entries = parse_ini("a = 0\n[ s ]\n# a = 1\n; a = 2\na = 3\nb\n[t]\na=4=5\n");
    assert_eq!(get_setting(&entries, "s", "a").as_deref(), Some("3"));
    assert_eq!(get_setting(&entries, "s", "b"), None);
    assert_eq!(get_setting(&entries, "t", "a").as_deref(), Some("4=5"));
    // The last one of a key counts.
    let entries = parse_ini("[s]\na = 1\na = 2\n");
    assert_eq!(get_setting(&entries, "s", "a").as_deref(), Some("2"));
}

#[test]
fn unreadable_numbers_leave_the_default() {
    let env = vars(&[("BO_SERVICE_PORT", "x"), ("BO_DB_CONNECTION_COUNT", "-1")]);
    let config = Config::from_env_with(&env, None);
    assert_eq!(config.port, Config::default().port);
    assert_eq!(config.db_connection_count, 3);
    assert_eq!(get_variable(&env, "BO_SERVICE_PORT").as_deref(), Some("x"));
    assert_eq!(get_variable(&env, "HOME"), None);
}

#[test]
fn quoted_values_differ_where_the_values_do() {
    let values = ["", "''", "a", "a b", "'a b'", "a'b", "a\\'b", "a\\b"];
    for (i, a) in values.iter().enumerate() {
        for b in &values[i + 1..] {
            assert_ne!(quote_conninfo_value(a), quote_conninfo_value(b), "{a:?} {b:?}");
        }
    }
}
