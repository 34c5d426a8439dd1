use calendar_monitor::config::{
    parse_unsigned, Config, ConfigError, EnvVars, GoogleConfig, IcsConfig, ServerConfig,
};

fn create_test_config() -> Config {
    Config {
        server: ServerConfig {
            host: "127.0.0.1".to_string(),
            port: 3000,
            cache_ttl_seconds: 3600,
        },
        ics: IcsConfig {
            file_paths: vec![
                "/path/to/calendar1.ics".to_string(),
                "/path/to/calendar2.ics".to_string(),
            ],
        },
        google: GoogleConfig {
            client_id: Some("test_client_id".to_string()),
            client_secret: Some("test_client_secret".to_string()),
            redirect_uri: Some("http://localhost:3000/auth/google/callback".to_string()),
        },
    }
}

fn valid_config_with_google(client_id: &str, redirect_uri: &str) -> Config {
    Config {
        server: ServerConfig {
            host: "127.0.0.1".to_string(),
            port: 3000,
            cache_ttl_seconds: 300,
        },
        ics: IcsConfig {
            file_paths: vec!["/path/to/calendar.ics".to_string()],
        },
        google: GoogleConfig {
            client_id: Some(client_id.to_string()),
            client_secret: Some("test_client_secret".to_string()),
            redirect_uri: Some(redirect_uri.to_string()),
        },
    }
}

#[test]
fn test_config_validation() {
    let config = valid_config_with_google("test_client_id", "http://localhost:3000/auth/google/callback");
    assert!(config.validate().is_ok());
}

#[test]
fn test_config_validation_empty_client_id() {
    let config = valid_config_with_google("", "http://localhost:3000/auth/google/callback");
    assert!(config.validate().is_err());
    assert_eq!(config.validate(), Err(ConfigError::EmptyClientId));
}

#[test]
fn test_config_validation_invalid_redirect_uri() {
    let config = valid_config_with_google("test_client_id", "ftp://invalid-protocol.com");
    assert!(config.validate().is_err());
    assert_eq!(config.validate(), Err(ConfigError::InvalidRedirectUri));
}

#[test]
fn test_config_validation_empty_ics_paths() {
    let config = Config {
        server: ServerConfig {
            host: "127.0.0.1".to_string(),
            port: 3000,
            cache_ttl_seconds: 300,
        },
        ics: IcsConfig { file_paths: vec![] },
        google: GoogleConfig {
            client_id: None,
            client_secret: None,
            redirect_uri: None,
        },
    };
    assert!(config.validate().is_err());
    assert_eq!(config.validate(), Err(ConfigError::NoSources));
}

#[test]
fn validation_rejects_partial_oauth_and_blank_fields() {
    let mut config = create_test_config();
    config.google.client_secret = None;
    assert_eq!(config.validate(), Err(ConfigError::IncompleteGoogleOAuth));

    let mut config = create_test_config();
    config.google.client_secret = Some("   ".to_string());
    assert_eq!(config.validate(), Err(ConfigError::EmptyClientSecret));

    let mut config = create_test_config();
    config.google.redirect_uri = Some("\t".to_string());
    assert_eq!(config.validate(), Err(ConfigError::EmptyRedirectUri));

    let mut config = create_test_config();
    config.ics.file_paths.clear();
    assert_eq!(config.validate(), Ok(()));
}

#[test]
fn environment_overrides_server_values() {
    let mut config = create_test_config();
    let env = EnvVars {
        host: Some("192.168.1.100".to_string()),
        port: Some("4000".to_string()),
        cache_ttl: Some("7200".to_string()),
        ..EnvVars::default()
    };
    config.apply_env_vars(&env).expect("Failed to apply env vars");
    assert_eq!(config.server.host, "192.168.1.100");
    assert_eq!(config.server.port, 4000);
    assert_eq!(config.server.cache_ttl_seconds, 7200);
}

#[test]
fn environment_overrides_only_what_is_set() {
    let mut config = create_test_config();
    let env = EnvVars {
        port: Some("5000".to_string()),
        ..EnvVars::default()
    };
    config.apply_env_vars(&env).expect("Failed to apply env vars");
    assert_eq!(config.server.host, "127.0.0.1");
    assert_eq!(config.server.port, 5000);
    assert_eq!(config.server.cache_ttl_seconds, 3600);
}

#[test]
fn environment_overrides_oauth_and_paths() {
    let mut config = Config::default();
    let env = EnvVars {
        ics_file_paths: Some(" ./work.ics , ,./personal.ics,".to_string()),
        ics_file_path: Some("./ignored.ics".to_string()),
        google_client_id: Some("unique_env_client_id_for_test".to_string()),
        google_client_secret: Some("unique_env_client_secret_for_test".to_string()),
        google_redirect_uri: Some("http://unique-env.example.com/callback".to_string()),
        ..EnvVars::default()
    };
    config.apply_env_vars(&env).expect("Failed to apply env vars");
    assert_eq!(config.ics.file_paths, vec!["./work.ics".to_string(), "./personal.ics".to_string()]);
    assert_eq!(config.google.client_id, Some("unique_env_client_id_for_test".to_string()));
    assert_eq!(config.google.client_secret, Some("unique_env_client_secret_for_test".to_string()));
    assert_eq!(config.google.redirect_uri, Some("http://unique-env.example.com/callback".to_string()));
}

#[test]
fn single_path_used_only_without_a_list() {
    let mut config = Config::default();
    let env = EnvVars {
        ics_file_path: Some("./calendar.ics".to_string()),
        ..EnvVars::default()
    };
    config.apply_env_vars(&env).unwrap();
    assert_eq!(config.ics.file_paths, vec!["./calendar.ics".to_string()]);
}

#[test]
fn bad_numbers_in_environment_are_errors() {
    let mut config = create_test_config();
    let env = EnvVars {
        host: Some("10.0.0.1".to_string()),
        port: Some("70000".to_string()),
        ..EnvVars::default()
    };
    assert_eq!(config.apply_env_vars(&env), Err(ConfigError::InvalidPort));
    assert_eq!(config.server.host, "10.0.0.1");
    assert_eq!(config.server.port, 3000);

    let mut config = create_test_config();
    let env = EnvVars {
        cache_ttl: Some("-5".to_string()),
        ..EnvVars::default()
    };
    assert_eq!(config.apply_env_vars(&env), Err(ConfigError::InvalidCacheTtl));
}

#[test]
fn unsigned_parsing_follows_std() {
    assert_eq!(parse_unsigned("8080", 65535), Some(8080));
    assert_eq!(parse_unsigned("+42", 65535), Some(42));
    assert_eq!(parse_unsigned("0007", 65535), Some(7));
    assert_eq!(parse_unsigned("65535", 65535), Some(65535));
    assert_eq!(parse_unsigned("65536", 65535), None);
    assert_eq!(parse_unsigned("", 65535), None);
    assert_eq!(parse_unsigned("+", 65535), None);
    assert_eq!(parse_unsigned("12a", 65535), None);
    assert_eq!(parse_unsigned(" 1", 65535), None);
    assert_eq!(parse_unsigned("18446744073709551615", u64::MAX), Some(u64::MAX));
    assert_eq!(parse_unsigned("18446744073709551616", u64::MAX), None);
    for text in ["0", "1", "99", "300", "4000", "65534"] {
        assert_eq!(parse_unsigned(text, 65535), text.parse::<u16>().ok().map(u64::from));
    }
}

#[test]
fn default_and_bind_address() {
    let config = Config::default();
    assert_eq!(config.server.host, "127.0.0.1");
    assert_eq!(config.server.port, 3000);
    assert_eq!(config.server.cache_ttl_seconds, 300);
    assert!(config.ics.file_paths.is_empty());
    assert_eq!(config.bind_address(), "127.0.0.1:3000");

    let mut config = create_test_config();
    config.server.host = "0.0.0.0".to_string();
    config.server.port = 8080;
    assert_eq!(config.bind_address(), "0.0.0.0:8080");
    config.server.port = 7;
    assert_eq!(config.bind_address(), "0.0.0.0:7");
}

#[test]
fn oauth_config_only_when_complete() {
    let config = create_test_config();
    assert_eq!(
        config.google_oauth_config(),
        Some((
            "test_client_id".to_string(),
            "test_client_secret".to_string(),
            "http://localhost:3000/auth/google/callback".to_string()
        ))
    );
    let mut partial = create_test_config();
    partial.google.redirect_uri = None;
    assert_eq!(partial.google_oauth_config(), None);
}

#[test]
fn load_applies_environment_then_validates() {
    let loaded = Config::load(Some(create_test_config()), &EnvVars::default()).unwrap();
    assert_eq!(loaded.server.cache_ttl_seconds, 3600);

    assert_eq!(Config::load(None, &EnvVars::default()).unwrap_err(), ConfigError::NoSources);

    let env = EnvVars {
        ics_file_paths: Some("a.ics,b.ics".to_string()),
        ..EnvVars::default()
    };
    let loaded = Config::load(None, &env).unwrap();
    assert_eq!(loaded.ics.file_paths.len(), 2);
    assert_eq!(loaded.bind_address(), "127.0.0.1:3000");

    let env = EnvVars {
        port: Some("x".to_string()),
        ..EnvVars::default()
    };
    assert_eq!(Config::load(Some(create_test_config()), &env).unwrap_err(), ConfigError::InvalidPort);
}

#[test]
fn sample_config_lists_every_field() {
    let sample = Config::create_sample_config();
    assert_eq!(sample.server.host, "0.0.0.0");
    assert_eq!(sample.ics.file_paths.len(), 2);
    assert_eq!(sample.google.client_id, Some("your-google-client-id".to_string()));
    assert!(sample.validate().is_ok());
}
