//! The configuration: defaults, rules, keys and addresses.

use pardon::addr::{parse_socket, Ip};
use pardon::config::{
    config_path, default_config_path, effective_http_bind, restart_required, set_bool, AppConfig,
    ConfigError, ProviderConfig, ProviderType, DEFAULT_CONFIG_TOML,
};
use pardon::document::{edit, set_switch, Edit};
use pardon::ipc::socket_path;
use pardon::paths::{join, parent};

#[test]
fn a_switch_is_set_in_place() {
    let file = "# mine\ndefault_engine = \"bing\"\n\n[daemon]\n# by itself\n\
                auto_translate = true # yes\npopup = true\n";
    assert_eq!(
        set_bool(&Some(file.to_string()), "daemon", "auto_translate", false),
        Ok(file.replace("auto_translate = true # yes", "auto_translate = false # yes"))
    );
    let set = |t: &str| set_bool(&Some(t.to_string()), "daemon", "popup", true);
    assert_eq!(set("x = 1\n"), Ok("x = 1\n\n[daemon]\npopup = true\n".to_string()));
    assert_eq!(set("[daemon]\n# kept\n"), Ok("[daemon]\npopup = true\n# kept\n".to_string()));
    assert_eq!(
        set_bool(&None, "daemon", "popup", false),
        Ok("[daemon]\npopup = false\n".to_string())
    );
    assert_eq!(
        set("daemon = 3\n"),
        Err(ConfigError::Invalid { field: "daemon".into(), reason: "must be a table".into() })
    );
    assert!(matches!(set("[daemon"), Err(ConfigError::Parse(_))));
    let text = set_bool(&Some(DEFAULT_CONFIG_TOML.to_string()), "daemon", "auto_translate", false);
    let file: toml::Table = text.unwrap().parse().unwrap();
    assert_eq!(file["daemon"]["auto_translate"].as_bool(), Some(false));
}

#[test]
fn a_switch_replaces_whatever_stands_under_its_key() {
    let set = |t: &str| set_bool(&Some(t.to_string()), "daemon", "popup", true);
    assert_eq!(
        set("daemon = { popup = \"no\" } # here\n"),
        Ok("daemon = { popup = true } # here\n".to_string())
    );
    assert_eq!(
        set("[daemon]\npopup = 3 # three\n[x]\n# last\n"),
        Ok("[daemon]\npopup = true # three\n[x]\n# last\n".to_string())
    );
    let twice = set(&set("daemon.popup = false\n").unwrap()).unwrap();
    let file: toml::Table = twice.parse().unwrap();
    assert_eq!(file["daemon"]["popup"].as_bool(), Some(true));
}

#[test]
fn a_switch_is_set_in_a_document() {
    let mut d: toml_edit::DocumentMut = "x = 1\n".parse().unwrap();
    assert!(!set_switch(&mut d, "x", "y", true));
    assert_eq!(d.to_string(), "x = 1\n");
    assert!(set_switch(&mut d, "t", "y", true));
    assert!(set_switch(&mut d, "t", "y", false));
    assert_eq!(d["t"]["y"].as_bool(), Some(false));
    assert_eq!(d["x"].as_integer(), Some(1));
    assert_eq!(edit("x = 1\n", "x", "y", true), Edit::NoTable);
    assert!(matches!(edit("x =", "x", "y", true), Edit::NotToml(_)));
    assert_eq!(edit("", "t", "y", true), Edit::Text("[t]\ny = true\n".into()));
}

fn provider(id: &str) -> ProviderConfig {
    ProviderConfig {
        id: id.into(),
        provider_type: ProviderType::Openai,
        base_url: "https://api.deepseek.com/v1".into(),
        model: "deepseek-chat".into(),
        api_key: None,
        api_key_env: None,
        system_prompt: None,
        user_prompt_template: None,
    }
}

fn field_of(err: &ConfigError) -> &str {
    match err {
        ConfigError::Invalid { field, .. } => field,
        other => panic!("expected Invalid, got {other:?}"),
    }
}

#[test]
fn builtin_defaults_are_out_of_box_usable() {
    let cfg = AppConfig::default();
    assert_eq!(cfg.default_engine, "youdao");
    assert_eq!(cfg.llm.default_provider, "");
    assert!(cfg.llm.providers.is_empty());
    assert!(cfg.validate().is_ok());
}

/// What is wrong with a configuration that differs from the default in this way.
fn problem(change: impl Fn(&mut AppConfig)) -> ConfigError {
    let mut cfg = AppConfig::default();
    change(&mut cfg);
    cfg.validate().unwrap_err()
}

#[test]
fn unknown_default_engine_is_invalid() {
    let err = problem(|c| c.default_engine = "google".into());
    match &err {
        ConfigError::Invalid { field, reason } => {
            assert_eq!(field, "default_engine");
            assert!(reason.contains("google"), "reason: {reason}");
        }
        other => panic!("expected Invalid, got {other:?}"),
    }
    assert_eq!(
        err.message(),
        "config invalid: default_engine: unknown engine \"google\", expected one of llm/youdao/bing"
    );
    let err = problem(|c| c.default_engine = "go\"gle\n".into());
    assert_eq!(
        err.message(),
        "config invalid: default_engine: unknown engine \"go\\\"gle\\n\", \
         expected one of llm/youdao/bing"
    );
}

#[test]
fn llm_engine_requires_resolvable_default_provider() {
    let err = problem(|c| {
        c.default_engine = "llm".into();
        c.llm.default_provider = "missing".into();
        c.llm.providers = vec![provider("ds")];
    });
    assert_eq!(field_of(&err), "llm.default_provider");
}

#[test]
fn llm_engine_with_empty_default_provider_is_invalid() {
    let err = problem(|c| c.default_engine = "llm".into());
    assert_eq!(field_of(&err), "llm.default_provider");
}

#[test]
fn duplicate_provider_ids_are_invalid() {
    let err = problem(|c| {
        c.default_engine = "bing".into();
        c.llm.providers = vec![provider("ds"), provider("ds")];
    });
    match &err {
        ConfigError::Invalid { field, reason } => {
            assert_eq!(field, "llm.providers[1].id");
            assert!(reason.contains("ds"), "reason: {reason}");
        }
        other => panic!("expected Invalid, got {other:?}"),
    }
}

#[test]
fn empty_provider_fields_are_invalid() {
    let err = problem(|c| c.llm.providers = vec![provider("")]);
    assert_eq!(field_of(&err), "llm.providers[0].id");
    let err = problem(|c| {
        c.llm.providers = vec![ProviderConfig { base_url: "".into(), ..provider("ds") }]
    });
    assert_eq!(field_of(&err), "llm.providers[0].base_url");
    let err = problem(|c| {
        c.llm.providers = vec![ProviderConfig { model: "".into(), ..provider("ds") }]
    });
    assert_eq!(field_of(&err), "llm.providers[0].model");
}

#[test]
fn ollama_provider_may_omit_api_key() {
    let local = ProviderConfig {
        provider_type: ProviderType::Ollama,
        base_url: "http://127.0.0.1:11434/v1".into(),
        model: "qwen2.5:7b".into(),
        ..provider("local")
    };
    let mut cfg = AppConfig::default();
    cfg.llm.providers = vec![local];
    assert!(cfg.validate().is_ok());
    let p = &cfg.llm.providers[0];
    assert!(p.resolve_api_key(|_| Ok::<String, ()>("unused".into())).is_none());
}

#[test]
fn the_file_that_is_written_at_first_says_the_defaults() {
    assert!(DEFAULT_CONFIG_TOML.contains('#'));
    assert!(DEFAULT_CONFIG_TOML.contains(r#"default_engine = "youdao""#));
    let file: toml::Table = DEFAULT_CONFIG_TOML.parse().unwrap();
    let cfg = AppConfig::default();
    assert_eq!(file["default_engine"].as_str(), Some(cfg.default_engine.as_str()));
    assert_eq!(file["llm"]["default_provider"].as_str(), Some(cfg.llm.default_provider.as_str()));
    assert_eq!(file["llm"]["providers"].as_array().unwrap().len(), cfg.llm.providers.len());
    let d = match file.get("daemon") {
        Some(d) => d.as_table().unwrap().clone(),
        None => toml::Table::new(),
    };
    let number = |k: &str| d.get(k).map(|v| v.as_integer().unwrap());
    let flag = |k: &str| d.get(k).map(|v| v.as_bool().unwrap());
    assert!(d.get("http_bind").map_or(true, |v| v.as_str() == Some(&cfg.daemon.http_bind)));
    for (k, v) in [
        ("max_text_bytes", cfg.daemon.max_text_bytes as i64),
        ("dedup_window_ms", cfg.daemon.dedup_window_ms as i64),
        ("notify_timeout_ms", cfg.daemon.notify_timeout_ms as i64),
    ] {
        assert_eq!(number(k).unwrap_or(v), v, "{k}");
    }
    for (k, v) in [
        ("auto_translate", cfg.daemon.auto_translate),
        ("copy_translation", cfg.daemon.copy_translation),
        ("show_word_badge", cfg.daemon.show_word_badge),
        ("popup", cfg.daemon.popup),
    ] {
        assert_eq!(flag(k).unwrap_or(v), v, "{k}");
    }
}

#[test]
fn non_loopback_http_bind_is_invalid() {
    let err = problem(|c| c.daemon.http_bind = "0.0.0.0:7377".into());
    assert_eq!(field_of(&err), "daemon.http_bind");
    let err = problem(|c| c.daemon.http_bind = "not an addr".into());
    assert!(matches!(err, ConfigError::Invalid { .. }), "got {err:?}");
}

#[test]
fn zero_limits_are_invalid() {
    assert_eq!(field_of(&problem(|c| c.daemon.max_text_bytes = 0)), "daemon.max_text_bytes");
    assert_eq!(field_of(&problem(|c| c.daemon.dedup_window_ms = 0)), "daemon.dedup_window_ms");
}

#[test]
fn resolve_api_key_prefers_inline_over_env() {
    let p = ProviderConfig {
        api_key: Some("sk-plain".into()),
        api_key_env: Some("SOME_VAR".into()),
        ..provider("ds")
    };
    let key = p.resolve_api_key(|_| Ok::<String, ()>("from-env".into())).unwrap();
    assert_eq!(key, "sk-plain");
}

fn only_deepseek(name: String) -> Result<String, ()> {
    if name == "DEEPSEEK_API_KEY" {
        Ok("sekret".into())
    } else {
        Err(())
    }
}

#[test]
fn resolve_api_key_reads_env_var_by_name() {
    let p = ProviderConfig {
        api_key_env: Some("DEEPSEEK_API_KEY".into()),
        ..provider("ds")
    };
    assert_eq!(p.resolve_api_key(only_deepseek).unwrap(), "sekret");
    assert!(p.resolve_api_key(|_| Err::<String, ()>(())).is_none());
}

#[test]
fn resolve_api_key_none_when_no_source() {
    let p = provider("ds");
    assert!(p.resolve_api_key(|_| Ok::<String, ()>("unused".into())).is_none());
}

#[test]
fn resolve_api_key_prefers_inline_then_env_then_none() {
    let p = provider("ds");
    assert!(p.resolve_api_key(|_| Ok::<String, ()>("unexpected".into())).is_none());
    let p = ProviderConfig { api_key_env: Some("DEEPSEEK_API_KEY".into()), ..p };
    let key = p
        .resolve_api_key(|name| {
            if name == "DEEPSEEK_API_KEY" {
                Ok("env-value".to_string())
            } else {
                Err(())
            }
        })
        .unwrap();
    assert_eq!(key, "env-value");
    assert!(p.resolve_api_key(|_| Err::<String, ()>(())).is_none());
    let p = ProviderConfig { api_key: Some("sk-plain".into()), ..p };
    assert_eq!(p.resolve_api_key(|_| Err::<String, ()>(())).as_deref(), Some("sk-plain"));
}

#[test]
fn default_config_path_points_into_pardon_dir() {
    let p = default_config_path(&Some("/home/u/.config".into()));
    assert!(p.ends_with("pardon/config.toml"));
    assert_eq!(p, "/home/u/.config/pardon/config.toml");
    assert!(default_config_path(&None).ends_with("pardon/config.toml"));
}

#[test]
fn a_named_configuration_file_comes_first() {
    let dir = Some("/home/u/.config".to_string());
    assert_eq!(config_path(&Some("/tmp/c.toml".into()), &dir), "/tmp/c.toml");
    assert_eq!(config_path(&None, &dir), "/home/u/.config/pardon/config.toml");
}

#[test]
fn daemon_section_defaults() {
    let cfg = AppConfig::default();
    assert_eq!(cfg.daemon.http_bind, "127.0.0.1:7377");
    assert!(cfg.daemon.auto_translate);
    assert_eq!(cfg.daemon.max_text_bytes, 5120);
    assert_eq!(cfg.daemon.dedup_window_ms, 10_000);
    assert!(!cfg.daemon.copy_translation);
    assert_eq!(cfg.daemon.notify_timeout_ms, 5000);
    assert!(!cfg.daemon.show_word_badge);
    assert!(!cfg.daemon.popup);
}

#[test]
fn effective_http_bind_resolves_config_and_env() {
    let cfg = AppConfig::default();
    let addr = effective_http_bind(&cfg, &None).unwrap();
    assert_eq!(addr.port, 7377);
    assert!(addr.ip.is_loopback());
    assert_eq!(effective_http_bind(&cfg, &Some("127.0.0.1:0".into())).unwrap().port, 0);
    assert!(matches!(
        effective_http_bind(&cfg, &Some("192.168.1.5:7377".into())),
        Err(ConfigError::Invalid { .. })
    ));
}

#[test]
fn addresses_are_read_as_they_are_written() {
    let a = parse_socket("127.0.0.1:80").unwrap();
    assert_eq!(a.ip, Ip::V4(vec![127, 0, 0, 1]));
    assert_eq!(a.port, 80);
    let b = parse_socket("[::1]:65535").unwrap();
    assert_eq!(b.ip, Ip::V6(vec![0, 0, 0, 0, 0, 0, 0, 1]));
    assert!(b.ip.is_loopback());
    assert_eq!(
        parse_socket("[2001:db8::a%3]:1").unwrap().ip,
        Ip::V6(vec![0x2001, 0xdb8, 0, 0, 0, 0, 0, 0xa])
    );
    for bad in ["127.0.0.1", "127.0.0.1:", "127.0.0.1:65536", "256.0.0.1:1", "01.0.0.1:1", "::1:1", "[::1]", "localhost:1"] {
        assert!(parse_socket(bad).is_none(), "{bad}");
    }
    assert!(!parse_socket("128.0.0.1:1").unwrap().ip.is_loopback());
}

#[test]
fn only_engine_changes_need_a_restart() {
    let mut old = AppConfig::default();
    old.default_engine = "llm".into();
    old.llm.default_provider = "ds".into();
    old.llm.providers = vec![provider("ds")];
    let mut new = old.clone();
    new.daemon.popup = true;
    new.daemon.max_text_bytes = 1;
    assert!(!restart_required(&old, &new));
    new.default_engine = "bing".into();
    assert!(restart_required(&old, &new));
    let mut new = old.clone();
    new.llm.providers[0].model = "other".into();
    assert!(restart_required(&old, &new));
    let mut new = old.clone();
    new.llm.default_provider = "".into();
    assert!(restart_required(&old, &new));
}

#[test]
fn env_override_wins() {
    assert_eq!(
        socket_path(&Some("/tmp/my.sock".into()), &Some("/run/user/1000".into())),
        "/tmp/my.sock"
    );
}

#[test]
fn default_under_xdg_runtime_dir() {
    assert_eq!(
        socket_path(&None, &Some("/run/user/1000".into())),
        "/run/user/1000/pardon/ipc.sock"
    );
    assert_eq!(socket_path(&None, &None), "/tmp/pardon/ipc.sock");
    assert_eq!(socket_path(&Some("".into()), &Some("".into())), "/tmp/pardon/ipc.sock");
}

#[test]
fn empty_override_falls_back_to_xdg() {
    assert_eq!(
        socket_path(&Some("".into()), &Some("/run/user/1000".into())),
        "/run/user/1000/pardon/ipc.sock"
    );
}

#[test]
fn a_name_below_a_directory_has_it_as_its_parent() {
    assert_eq!(join("/a/b", "c"), "/a/b/c");
    assert_eq!(parent("/a/b/c").as_deref(), Some("/a/b"));
    assert_eq!(parent("c").as_deref(), Some(""));
    assert_eq!(parent("/"), None);
}
