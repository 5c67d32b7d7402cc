use sshdt::net::IpAddr;
use sshdt::paths::PathStyle;
use sshdt::sshd_config::{
    parse, parse_for_user, parse_listen_address, parse_time, parse_yes_no, read_banner,
    strip_comment, unsupported_directives,
};
use sshdt::Error;

#[test]
fn parses_core_directives() {
    let cfg = parse(
        "\
            # a comment\n\
            Port 2200\n\
            ListenAddress 0.0.0.0\n\
            AllowTcpForwarding no\n\
            LoginGraceTime 30\n\
            MaxStartups 10:30:60\n\
            AcceptEnv LANG LC_*\n\
            ForceCommand /bin/echo hi\n\
            UnknownDirective whatever\n",
    )
    .unwrap();
    assert_eq!(cfg.port, 2200);
    assert_eq!(cfg.bind.to_string(), "0.0.0.0");
    assert!(!cfg.allow_tcp_forwarding);
    assert_eq!(cfg.login_grace_secs, 30);
    assert_eq!(cfg.max_startups, 10);
    assert_eq!(cfg.accept_env, vec!["LANG", "LC_*"]);
    assert_eq!(cfg.shell.as_deref(), Some("/bin/echo hi"));
}

#[test]
fn parses_realistic_commented_config() {
    let cfg = parse(
        "\
# /etc/ssh/sshd_config — sshdt
#
# This file is heavily commented on purpose.

Port 2022                       # listen high, unprivileged
ListenAddress 0.0.0.0           # all interfaces

# --- host keys (repeatable) ---
HostKey /etc/ssh/ssh_host_ed25519_key
HostKey /etc/ssh/ssh_host_rsa_key

# --- auth ---
    AuthorizedKeysFile  .ssh/authorized_keys  .ssh/authorized_keys2
PasswordAuthentication no       # keys only

# --- behaviour ---
AllowTcpForwarding yes
LoginGraceTime 45s
MaxStartups 10:30:100
AcceptEnv LANG
AcceptEnv LC_* EDITOR           # second AcceptEnv accumulates
ForceCommand /usr/bin/tmux new -A -s main
Banner /etc/ssh/banner.txt

Subsystem sftp internal-sftp    # ignored: sftp is built in
#FullyCommentedOutDirective value
",
    )
    .unwrap();

    assert_eq!(cfg.port, 2022);
    assert_eq!(cfg.bind.to_string(), "0.0.0.0");
    assert_eq!(
        cfg.host_keys,
        vec![
            "/etc/ssh/ssh_host_ed25519_key",
            "/etc/ssh/ssh_host_rsa_key",
        ]
    );
    assert_eq!(
        cfg.authorized_keys,
        vec![".ssh/authorized_keys", ".ssh/authorized_keys2"]
    );
    assert!(cfg.allow_tcp_forwarding);
    assert_eq!(cfg.login_grace_secs, 45);
    assert_eq!(cfg.max_startups, 10);
    assert_eq!(cfg.accept_env, vec!["LANG", "LC_*", "EDITOR"]);
    assert_eq!(cfg.shell.as_deref(), Some("/usr/bin/tmux new -A -s main"));
    assert_eq!(cfg.banner.as_deref(), Some("/etc/ssh/banner.txt"));
}

#[test]
fn comments_in_every_position() {
    let cfg = parse(
        "\
# full-line comment
   # indented comment

Port 2200   # trailing inline comment
\t# tab-indented comment
",
    )
    .unwrap();
    assert_eq!(cfg.port, 2200);

    let only_comments = parse("# just a comment\n\n   # another\n").unwrap();
    assert_eq!(only_comments.port, sshdt::DEFAULT_PORT);
    assert_eq!(parse("").unwrap().port, sshdt::DEFAULT_PORT);
}

#[test]
fn hash_inside_a_value_is_not_a_comment() {
    assert_eq!(strip_comment("Banner Welcome#1"), "Banner Welcome#1");
    assert_eq!(strip_comment("Port 22 # the port"), "Port 22 ");
    assert_eq!(strip_comment("# whole line"), "");
    assert_eq!(strip_comment("   # indented"), "   ");
    assert_eq!(
        strip_comment("ForceCommand echo hi#there"),
        "ForceCommand echo hi#there"
    );

    let cfg = parse("ForceCommand /bin/echo a#b c#d\n").unwrap();
    assert_eq!(cfg.shell.as_deref(), Some("/bin/echo a#b c#d"));
}

#[test]
fn directive_keys_are_case_insensitive() {
    let cfg = parse("PORT 2300\nlistenaddress 127.0.0.2\nLoGiNgRaCeTiMe 1m\n").unwrap();
    assert_eq!(cfg.port, 2300);
    assert_eq!(cfg.bind.to_string(), "127.0.0.2");
    assert_eq!(cfg.login_grace_secs, 60);
}

#[test]
fn time_suffixes() {
    assert_eq!(parse("LoginGraceTime 90\n").unwrap().login_grace_secs, 90);
    assert_eq!(parse("LoginGraceTime 30s\n").unwrap().login_grace_secs, 30);
    assert_eq!(parse("LoginGraceTime 2m\n").unwrap().login_grace_secs, 120);
    assert_eq!(parse("LoginGraceTime 1h\n").unwrap().login_grace_secs, 3600);
}

#[test]
fn listen_address_variants() {
    assert_eq!(
        parse("ListenAddress 10.0.0.1\n").unwrap().bind.to_string(),
        "10.0.0.1"
    );
    assert_eq!(
        parse("ListenAddress 10.0.0.1:22\n")
            .unwrap()
            .bind
            .to_string(),
        "10.0.0.1"
    );
    assert_eq!(
        parse("ListenAddress [::1]:22\n").unwrap().bind.to_string(),
        "::1"
    );
    assert_eq!(
        parse("ListenAddress ::1\n").unwrap().bind.to_string(),
        "::1"
    );
}

#[test]
fn maxstartups_takes_first_field() {
    assert_eq!(parse("MaxStartups 5\n").unwrap().max_startups, 5);
    assert_eq!(parse("MaxStartups 10:30:60\n").unwrap().max_startups, 10);
}

#[test]
fn allow_tcp_forwarding_variants() {
    assert!(
        !parse("AllowTcpForwarding no\n")
            .unwrap()
            .allow_tcp_forwarding
    );
    assert!(
        parse("AllowTcpForwarding yes\n")
            .unwrap()
            .allow_tcp_forwarding
    );
    assert!(
        parse("AllowTcpForwarding local\n")
            .unwrap()
            .allow_tcp_forwarding
    );
}

#[test]
fn auth_toggles() {
    let cfg = parse("PasswordAuthentication no\n").unwrap();
    assert!(cfg.password.is_none());
    assert!(!cfg.allow_anonymous);
    let cfg = parse("AuthorizedKeysFile /k\nPubkeyAuthentication no\n").unwrap();
    assert!(cfg.authorized_keys.is_empty());
    assert!(!cfg.allow_anonymous);
    assert!(
        !parse("PasswordAuthentication yes\n")
            .unwrap()
            .allow_anonymous
    );
    assert!(!parse("PubkeyAuthentication yes\n").unwrap().allow_anonymous);
}

#[test]
fn relative_authorized_keys_files_use_the_user_home() {
    let cfg = parse_for_user(
        PathStyle::Posix,
        &format!(
            "AuthorizedKeysFile .ssh/authorized_keys {}\n",
            "/etc/ssh/shared_keys"
        ),
        Some("/home/ada"),
    )
    .unwrap();
    assert_eq!(
        cfg.authorized_keys,
        ["/home/ada/.ssh/authorized_keys", "/etc/ssh/shared_keys"]
    );

    let cfg = parse_for_user(
        PathStyle::Windows,
        &format!(
            "AuthorizedKeysFile .ssh/authorized_keys {}\n",
            r"C:\ProgramData\sshdt\shared_keys"
        ),
        Some(r"C:\Users\ada"),
    )
    .unwrap();
    assert_eq!(
        cfg.authorized_keys,
        [
            r"C:\Users\ada\.ssh/authorized_keys",
            r"C:\ProgramData\sshdt\shared_keys"
        ]
    );
}

#[test]
fn relative_authorized_keys_files_require_a_user_home() {
    let error = parse_for_user(
        PathStyle::Posix,
        "AuthorizedKeysFile .ssh/authorized_keys\n",
        None,
    )
    .unwrap_err();
    assert!(error.to_string().contains("without a home directory"));
}

#[test]
fn subsystem_and_unknown_directives_are_ignored_not_errors() {
    let cfg = parse("Subsystem sftp internal-sftp\nFooBar baz\nPort 2222\n").unwrap();
    assert_eq!(cfg.port, 2222);
    assert_eq!(
        unsupported_directives("Subsystem sftp internal-sftp\nFooBar baz\nPort 2222\n"),
        ["foobar"]
    );
}

#[test]
fn rejects_invalid_values() {
    assert!(parse("Port notanumber\n").is_err());
    assert!(parse("ListenAddress not-an-ip\n").is_err());
    assert!(parse("LoginGraceTime 5y\n").is_err());
    assert!(parse("MaxStartups abc\n").is_err());
}

#[test]
fn tunnel_directives_and_shell_are_read() {
    let cfg = parse(
        "\
Port 22
DevTunnelEnable yes
DevTunnelId sshdt-machine1
DevTunnelAutoCreate yes
DevTunnelTimeout 2m
DevTunnelLabel environment=dev
DevTunnelLabel team=platform
DevTunnelBin C:\\tools\\devtunnel.exe
Shell pwsh
",
    )
    .unwrap();
    assert!(cfg.dev_tunnel.enabled);
    assert!(cfg.dev_tunnel.auto_create);
    assert_eq!(cfg.dev_tunnel.id.as_deref(), Some("sshdt-machine1"));
    assert_eq!(cfg.dev_tunnel.timeout_secs, 120);
    assert_eq!(cfg.dev_tunnel.labels, ["environment=dev", "team=platform"]);
    assert_eq!(
        cfg.dev_tunnel.bin.as_deref(),
        Some("C:\\tools\\devtunnel.exe")
    );
    assert_eq!(cfg.shell.as_deref(), Some("pwsh"));

    let defaults = parse("").unwrap();
    assert!(!defaults.dev_tunnel.enabled);
    assert!(!defaults.dev_tunnel.auto_create);
    assert_eq!(defaults.dev_tunnel.timeout_secs, 30);
    assert!(parse("DevTunnelEnable maybe\n").is_err());
    assert!(parse("DevTunnelAutoCreate 1\n").is_err());
    assert!(parse("DevTunnelTimeout 0\n").is_err());
}

#[test]
fn invalid_values_name_the_line_and_the_directive() {
    let error = parse("\nPort 70000\n").unwrap_err();
    assert_eq!(
        error.to_string(),
        "failed to parse config file <sshd_config>: line 2: invalid Port value \"70000\""
    );
    let error = parse("LoginGraceTime a\"b\n").unwrap_err();
    assert_eq!(
        error.to_string(),
        "failed to parse config file <sshd_config>: line 1: invalid LoginGraceTime value \"a\\\"b\""
    );
    assert!(matches!(error, Error::ConfigFile { .. }));
}

#[test]
fn times_and_switches_are_read_exactly() {
    assert_eq!(parse_time(" 5 m "), Some(300));
    assert_eq!(parse_time("+7"), Some(7));
    assert_eq!(parse_time("18446744073709551615"), Some(u64::MAX));
    assert_eq!(parse_time("18446744073709551615h"), None);
    assert_eq!(parse_time("-1"), None);
    assert_eq!(parse_time(""), None);
    assert_eq!(parse_time("s"), None);
    assert_eq!(parse_yes_no("YES"), Some(true));
    assert_eq!(parse_yes_no("no"), Some(false));
    assert_eq!(parse_yes_no("yes "), None);
    assert_eq!(
        parse_listen_address(" [fe80::1]:22"),
        Some(IpAddr::V6(0xfe80, 0, 0, 0, 0, 0, 0, 1))
    );
    assert_eq!(parse_listen_address("[::1"), Some(IpAddr::V6(0, 0, 0, 0, 0, 0, 0, 1)));
    assert_eq!(parse_listen_address("localhost:22"), None);
}

#[test]
fn carriage_returns_and_blank_keys_are_harmless() {
    let cfg = parse("Port 2200\r\n\r\nShell\r\n").unwrap();
    assert_eq!(cfg.port, 2200);
    assert_eq!(cfg.shell.as_deref(), Some(""));
    assert_eq!(strip_comment(strip_comment("a # b # c").as_str()), "a ");
}

#[test]
fn banner_files_win_over_the_literal() {
    assert_eq!(read_banner("/etc/motd", None), "/etc/motd");
    assert_eq!(
        read_banner("/etc/motd", Some("hello\n".to_string())),
        "hello\n"
    );
    let cfg = parse("Banner /etc/motd\n")
        .unwrap()
        .with_banner(Some("hello\n".to_string()));
    assert_eq!(cfg.banner.as_deref(), Some("hello\n"));
}

#[test]
fn other_lines_and_capitals_change_nothing() {
    let x = "Port 2200\nAcceptEnv A B\nBanner Hi There\n";
    let y = "# first\n\nPORT 2200\n  FooBar baz # note\nacceptENV A B\n\t\nSubsystem sftp x\nbAnNeR Hi There";
    let a = parse(x).unwrap();
    let b = parse(y).unwrap();
    assert_eq!(format!("{:?}", a), format!("{:?}", b));
    assert_eq!(a.port, 2200);
    assert_eq!(a.accept_env, ["A", "B"]);
    let only = parse("FooBar\nSUBSYSTEM sftp y\n# z\n\n").unwrap();
    assert_eq!(
        format!("{:?}", only),
        format!("{:?}", sshdt::Config::default())
    );
    assert!(parse("\nFooBar\nPORT x\n").is_err());
}
