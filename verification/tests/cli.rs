use sshdt::cli::{
    build_config, check_options, config_format, log_filter, log_role, log_target, parse_local_port,
    saved_options_error, select_config_path, startup_args, Args, Format, LogTarget,
};
use sshdt::net::IpAddr;
use sshdt::paths::PathStyle;
use sshdt::sshd_config::parse;
use sshdt::windows_service::service_launch_arguments;
use sshdt::{parse_tunnel_timeout, valid_tunnel_id, validate_tunnel_id, Config};

fn s(text: &str) -> Option<String> {
    Some(text.to_string())
}

fn v(texts: &[&str]) -> Vec<String> {
    texts.iter().map(|t| t.to_string()).collect()
}

#[test]
fn tunnel_flags_roundtrip_through_service_options() {
    let args = Args {
        no_config: true,
        devtunnel_enable: true,
        devtunnel_id: s("my-tunnel"),
        devtunnel_auto_create: true,
        devtunnel_label: v(&["alpha", "env=dev"]),
        devtunnel_bin: s(r"C:\Program Files\Dev Tunnels\devtunnel.exe"),
        devtunnel_timeout: s("45s"),
        ..Args::default()
    };
    let saved = startup_args(PathStyle::Posix, &args, s("/work")).unwrap();
    assert_eq!(
        saved,
        [
            "--devtunnel-enable",
            "--devtunnel-id",
            "my-tunnel",
            "--devtunnel-label",
            "alpha",
            "--devtunnel-label",
            "env=dev",
            "--devtunnel-bin",
            r"/work/C:\Program Files\Dev Tunnels\devtunnel.exe",
            "--devtunnel-auto-create",
            "--devtunnel-timeout",
            "45s",
            "--no-config",
        ]
    );
    let config = build_config(&args, Config::default()).unwrap();
    assert!(config.dev_tunnel.enabled);
    assert!(config.dev_tunnel.auto_create);
    assert_eq!(config.dev_tunnel.id.as_deref(), Some("my-tunnel"));
    assert_eq!(config.dev_tunnel.timeout_secs, 45);
    assert_eq!(config.dev_tunnel.labels, ["alpha", "env=dev"]);
    assert_eq!(
        startup_args(PathStyle::Windows, &args, None).unwrap()[8],
        r"C:\Program Files\Dev Tunnels\devtunnel.exe"
    );
}

#[test]
fn tunnel_flags_override_config_and_reject_conflicts() {
    let file = || {
        parse("DevTunnelEnable yes\nDevTunnelId old-tunnel\nDevTunnelTimeout 30s\nDevTunnelBin old-devtunnel\nDevTunnelLabel old-label\n")
            .unwrap()
    };
    assert_eq!(
        build_config(&Args::default(), file())
            .unwrap()
            .dev_tunnel
            .labels,
        ["old-label"]
    );
    let args = Args {
        devtunnel_label: v(&["alpha", "env=dev"]),
        devtunnel_disable: true,
        devtunnel_id: s("new-tunnel"),
        devtunnel_bin: s("new-devtunnel"),
        devtunnel_timeout: s("2m"),
        ..Args::default()
    };
    let config = build_config(&args, file()).unwrap();
    assert!(!config.dev_tunnel.enabled);
    assert_eq!(config.dev_tunnel.id.as_deref(), Some("new-tunnel"));
    assert_eq!(config.dev_tunnel.timeout_secs, 120);
    assert_eq!(config.dev_tunnel.labels, ["alpha", "env=dev"]);
    assert_eq!(config.dev_tunnel.bin, s("new-devtunnel"));
    assert!(build_config(
        &Args {
            no_config: true,
            devtunnel_enable: true,
            devtunnel_disable: true,
            ..Args::default()
        },
        Config::default()
    )
    .is_err());
    assert!(build_config(
        &Args {
            no_config: true,
            devtunnel_timeout: s("0"),
            ..Args::default()
        },
        Config::default()
    )
    .is_err());
    assert!(build_config(
        &Args {
            no_config: true,
            devtunnel_enable: true,
            ..Args::default()
        },
        Config::default()
    )
    .unwrap()
    .dev_tunnel
    .id
    .is_none());
}

#[test]
fn tunnel_labels_reject_invalid_flags() {
    for label in ["", "a b", "a,b", "bad.label", "nonascii-\u{e9}"] {
        assert!(
            build_config(
                &Args {
                    no_config: true,
                    devtunnel_label: v(&[label]),
                    ..Args::default()
                },
                Config::default()
            )
            .is_err(),
            "{label:?}"
        );
    }
}

#[test]
fn service_enable_preserves_server_options() {
    let args = Args {
        port: Some(2200),
        bind: Some(IpAddr::V4(0, 0, 0, 0)),
        shell: s("pwsh -NoLogo"),
        allow_user: v(&["Ada Lovelace"]),
        no_forward: true,
        ..Args::default()
    };
    assert_eq!(
        startup_args(PathStyle::Posix, &args, None).unwrap(),
        [
            "--port",
            "2200",
            "--bind",
            "0.0.0.0",
            "--shell",
            "pwsh -NoLogo",
            "--allow-user",
            "Ada Lovelace",
            "--no-forward",
        ]
    );
}

#[test]
fn service_enable_does_not_save_the_implicit_config_path() {
    let args = Args::default();
    assert!(startup_args(PathStyle::Posix, &args, s("/work"))
        .unwrap()
        .is_empty());
}

#[test]
fn selects_implicit_config_only_when_it_exists() {
    assert_eq!(
        select_config_path(PathStyle::Posix, None, false, s("/home/ada"), false),
        None
    );
    assert_eq!(
        select_config_path(PathStyle::Posix, None, false, s("/home/ada"), true),
        s("/home/ada/.ssh/sshdt_config")
    );
    assert_eq!(
        select_config_path(PathStyle::Windows, None, false, s(r"C:\Users\ada"), true),
        s(r"C:\Users\ada\.ssh\sshdt_config")
    );
    assert_eq!(
        select_config_path(PathStyle::Posix, None, false, None, true),
        None
    );
}

#[test]
fn explicit_config_path_overrides_the_implicit_path() {
    let explicit = s("/tmp/dir/custom_config");
    assert_eq!(
        select_config_path(
            PathStyle::Posix,
            explicit.clone(),
            false,
            s("/tmp/dir"),
            false
        ),
        explicit
    );
}

#[test]
fn no_config_disables_the_implicit_config_path() {
    assert_eq!(
        select_config_path(PathStyle::Posix, None, true, s("/home/ada"), true),
        None
    );
}

#[test]
fn service_enable_preserves_no_config() {
    let args = Args {
        no_config: true,
        ..Args::default()
    };
    assert_eq!(
        startup_args(PathStyle::Posix, &args, None).unwrap(),
        ["--no-config"]
    );
}

#[test]
fn config_and_no_config_are_rejected_together() {
    let args = Args {
        config: s("custom"),
        no_config: true,
        ..Args::default()
    };
    let error = build_config(&args, Config::default()).unwrap_err();
    assert!(error.to_string().contains("cannot be used together"));
    assert_eq!(check_options(&args).unwrap_err(), error);
}

#[test]
fn every_option_takes_its_place_in_the_settings() {
    let args = Args {
        port: Some(1),
        host_key: v(&["k"]),
        bind: Some(IpAddr::V4(1, 2, 3, 4)),
        host_key_passphrase: s("pass"),
        password: s("word"),
        authorized_keys: v(&["b"]),
        pubkey: v(&["line"]),
        shell: s("sh"),
        sftp_root: s("root"),
        strict_user: true,
        allow_user: v(&["you"]),
        no_forward: true,
        login_grace: Some(5),
        max_startups: Some(6),
        ..Args::default()
    };
    let mut file = parse("HostKey old\nAuthorizedKeysFile a\nPort 9\nBanner hi\n").unwrap();
    file.allow_users = v(&["me"]);
    let c = build_config(&args, file).unwrap();
    assert_eq!(c.port, 1);
    assert_eq!(c.host_keys, ["k"]);
    assert_eq!(c.bind, IpAddr::V4(1, 2, 3, 4));
    assert_eq!(c.host_key_passphrase, s("pass"));
    assert_eq!(c.password, s("word"));
    assert_eq!(c.authorized_keys, ["a", "b"]);
    assert_eq!(c.authorized_key_lines, ["line"]);
    assert_eq!(c.shell, s("sh"));
    assert_eq!(c.sftp_root, s("root"));
    assert!(c.require_current_user);
    assert_eq!(c.allow_users, ["me", "you"]);
    assert!(!c.allow_tcp_forwarding);
    assert_eq!(c.login_grace_secs, 5);
    assert_eq!(c.max_startups, 6);
    assert_eq!(c.banner, s("hi"));
}

#[test]
fn saved_paths_do_not_depend_on_the_directory() {
    let args = Args {
        host_key: v(&["k", "/abs/k"]),
        config: s("c"),
        log_file: s("/var/log/x"),
        authorized_keys: v(&["a"]),
        sftp_root: s("r"),
        ..Args::default()
    };
    assert_eq!(
        startup_args(PathStyle::Posix, &args, s("/work/")).unwrap(),
        [
            "--host-key",
            "/work/k",
            "--host-key",
            "/abs/k",
            "--config",
            "/work/c",
            "--log-file",
            "/var/log/x",
            "--authorized-keys",
            "/work/a",
            "--sftp-root",
            "/work/r",
        ]
    );
    assert_eq!(
        startup_args(PathStyle::Posix, &args, None).unwrap_err(),
        "failed to resolve the current directory"
    );
    assert_eq!(
        startup_args(PathStyle::Windows, &args, s(r"D:\w")).unwrap()[3],
        "D:/abs/k"
    );
}

#[test]
fn control_manager_options_end_with_the_service_switch() {
    let args = Args {
        port: Some(22),
        debug: true,
        password: s("p"),
        max_startups: Some(3),
        ..Args::default()
    };
    assert_eq!(
        service_launch_arguments(PathStyle::Windows, &args, None).unwrap(),
        [
            "--port",
            "22",
            "--debug",
            "--password",
            "p",
            "--max-startups",
            "3",
            "--windows-service"
        ]
    );
    let relative = Args {
        config: s("x"),
        ..Args::default()
    };
    assert!(service_launch_arguments(PathStyle::Windows, &relative, None).is_err());
}

#[test]
fn tunnel_settings_are_validated() {
    let mut c = Config::default();
    c.dev_tunnel.timeout_secs = 0;
    assert_eq!(
        c.validate_dev_tunnel().unwrap_err().to_string(),
        "invalid configuration: DevTunnelTimeout must be greater than zero"
    );
    let mut c = Config::default();
    c.dev_tunnel.id = s("Bad");
    assert_eq!(
        c.validate_dev_tunnel().unwrap_err().to_string(),
        "invalid configuration: invalid DevTunnelId"
    );
    let mut c = Config::default();
    for i in 0..100 {
        c.dev_tunnel.labels.push(format!("l{}", i));
        c.dev_tunnel.labels.push(format!("l{}", i));
    }
    assert!(c.validate_dev_tunnel().is_ok());
    c.dev_tunnel.labels.push("one-more".to_string());
    assert_eq!(
        c.validate_dev_tunnel().unwrap_err().to_string(),
        "invalid configuration: DevTunnelLabel supports at most 100 unique labels"
    );
    let mut c = Config::default();
    c.dev_tunnel.labels = vec!["a".repeat(51)];
    assert!(c.validate_dev_tunnel().is_err());
    c.dev_tunnel.labels = vec!["a".repeat(50)];
    assert!(c.validate_dev_tunnel().is_ok());
}

#[test]
fn tunnel_names_and_timeouts_are_checked() {
    assert!(valid_tunnel_id("sshdt-machine1"));
    assert!(valid_tunnel_id("abc.eu"));
    assert!(!valid_tunnel_id("ab"));
    assert!(!valid_tunnel_id("-abc"));
    assert!(!valid_tunnel_id("abc-"));
    assert!(!valid_tunnel_id("abc."));
    assert!(!valid_tunnel_id("abc.eu.x"));
    assert!(!valid_tunnel_id("Abc"));
    assert!(!valid_tunnel_id(&"a".repeat(50)));
    assert_eq!(validate_tunnel_id("abc"), Ok(()));
    assert_eq!(
        validate_tunnel_id("a_b").unwrap_err(),
        "invalid Dev Tunnels ID; use lowercase letters, digits and hyphens"
    );
    assert_eq!(parse_tunnel_timeout("30s"), Ok(30));
    assert_eq!(parse_tunnel_timeout("2M"), Ok(120));
    assert_eq!(parse_tunnel_timeout("1h"), Ok(3600));
    assert_eq!(parse_tunnel_timeout("7"), Ok(7));
    assert!(parse_tunnel_timeout("0").is_err());
    assert!(parse_tunnel_timeout("2 m").is_err());
    assert!(parse_tunnel_timeout("18446744073709551615h").is_err());
}

#[test]
fn logs_go_where_they_are_asked_to() {
    let quiet = Args {
        quiet: true,
        debug: true,
        ..Args::default()
    };
    assert_eq!(log_filter(&quiet), "sshdt=error,warn");
    let verbose = Args {
        verbose: true,
        ..Args::default()
    };
    assert_eq!(log_filter(&verbose), "sshdt=debug,warn");
    assert_eq!(log_filter(&Args::default()), "sshdt=info,warn");
    assert!(matches!(
        log_target(&Args::default(), true),
        LogTarget::Daily
    ));
    assert!(matches!(
        log_target(&Args::default(), false),
        LogTarget::Stderr
    ));
    let file = Args {
        log_file: s("x"),
        ..Args::default()
    };
    assert!(matches!(log_target(&file, true), LogTarget::File(p) if p == "x"));
    assert_eq!(log_role(true, false), Ok(Some("host")));
    assert_eq!(log_role(false, true), Ok(Some("client")));
    assert_eq!(log_role(false, false), Ok(None));
    assert!(log_role(true, true).is_err());
}

#[test]
fn files_are_told_apart_by_their_extension() {
    assert_eq!(config_format(PathStyle::Posix, "/a/b.toml"), Format::Toml);
    assert_eq!(config_format(PathStyle::Posix, "/a/b.toml/"), Format::Toml);
    assert_eq!(config_format(PathStyle::Posix, "/a/.toml"), Format::Directives);
    assert_eq!(config_format(PathStyle::Posix, "/a.toml/b"), Format::Directives);
    assert_eq!(config_format(PathStyle::Windows, r"C:\.toml"), Format::Directives);
    assert_eq!(config_format(PathStyle::Windows, r"C:\x.toml"), Format::Toml);
    let loaded = Config::load_file(
        PathStyle::Posix,
        "/etc/conf",
        Ok("Port x\n".to_string()),
        None,
        Err(String::new()),
    );
    assert_eq!(
        loaded.unwrap_err().to_string(),
        "failed to parse config file /etc/conf: line 1: invalid Port value \"x\""
    );
    let toml = Config::load_file(
        PathStyle::Posix,
        "c.toml",
        Ok(String::new()),
        None,
        Err("bad".to_string()),
    );
    assert_eq!(
        toml.unwrap_err().to_string(),
        "failed to parse config file c.toml: bad"
    );
    let gone = Config::load_file(
        PathStyle::Posix,
        "c",
        Err("no such file".to_string()),
        None,
        Err(String::new()),
    );
    assert_eq!(
        gone.unwrap_err().to_string(),
        "failed to parse config file c: no such file"
    );
    assert_eq!(
        Config::from_toml(Ok(Config::default())).unwrap().port,
        sshdt::DEFAULT_PORT
    );
}

#[test]
fn local_ports_and_saved_options() {
    assert_eq!(parse_local_port("auto"), Ok(None));
    assert_eq!(parse_local_port("32222"), Ok(Some(32222)));
    assert!(parse_local_port("70000").is_err());
    assert_eq!(
        saved_options_error("  bad option\n"),
        "invalid saved sshdt service options: bad option"
    );
}
