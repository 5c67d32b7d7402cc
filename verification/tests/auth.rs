use sshdt::auth::{
    constant_time_eq, parse_public_key_line, AuthConfig, AuthMethod, AuthResult, MethodKind,
    PublicKey,
};
use sshdt::handler::{Auth, Gate};
use sshdt::server::{allowed_users, grace, host_passphrase, Startups, Surroundings};
use sshdt::session::Shells;
use sshdt::{Config, Error, Server, ServerBuilder};

const KEY: &str = "ssh-ed25519 AAAAC3NzaC1lZDI1NTE5AAAAIAABAgMEBQYHCAkKCwwNDg8QERITFBUWFxgZGhscHR4f me@here";
const OTHER: &str = "ssh-ed25519 AAAAC3NzaC1lZDI1NTE5AAAAIAcHBwcHBwcHBwcHBwcHBwcHBwcHBwcHBwcHBwcHBwcH";

fn surroundings(files: Vec<Result<String, String>>, user: Option<&str>) -> Surroundings {
    Surroundings {
        host_keys: 1,
        key_files: files,
        user: user.map(|u| u.to_string()),
        shells: Shells::Posix { shell: None },
        has_authenticator: false,
    }
}

fn accepts(server: &Server, user: &str, method: AuthMethod) -> bool {
    matches!(server.gate.decide(user, &method, None), Auth::Accept)
}

fn password(text: &str) -> AuthMethod {
    AuthMethod::Password(text.to_string())
}

fn key(line: &str) -> AuthMethod {
    AuthMethod::PublicKey(parse_public_key_line(line).unwrap())
}

#[test]
fn anonymous_auth_accepts_by_default() {
    let server = Server::builder().build(&surroundings(vec![], None)).unwrap();
    assert!(accepts(&server, "anyone", AuthMethod::Anonymous));
}

#[test]
fn explicit_authentication_disable_rejects_anonymous() {
    let config =
        sshdt::sshd_config::parse("PasswordAuthentication no\nPubkeyAuthentication no\n").unwrap();
    let server = ServerBuilder::from_config(config)
        .build(&surroundings(vec![], None))
        .unwrap();
    assert!(!accepts(&server, "anyone", AuthMethod::Anonymous));
    assert_eq!(server.methods, [MethodKind::Anonymous]);
}

#[test]
fn password_auth_accept_and_reject() {
    let server = Server::builder()
        .password("hunter2")
        .build(&surroundings(vec![], None))
        .unwrap();
    assert!(accepts(&server, "u", password("hunter2")));
    assert!(!accepts(&server, "u", password("nope")));
    assert!(!accepts(&server, "u", password("hunter")));
}

#[test]
fn password_server_rejects_anonymous() {
    let server = Server::builder()
        .password("hunter2")
        .build(&surroundings(vec![], None))
        .unwrap();
    assert!(!accepts(&server, "u", AuthMethod::Anonymous));
    assert_eq!(server.methods, [MethodKind::Password]);
}

#[test]
fn pubkey_auth_inline_accept_and_reject() {
    let server = Server::builder()
        .pubkey(KEY)
        .build(&surroundings(vec![], None))
        .unwrap();
    assert!(accepts(&server, "u", key(KEY)));
    assert!(!accepts(&server, "u", key(OTHER)));
    assert_eq!(server.methods, [MethodKind::PublicKey]);
}

#[test]
fn pubkey_auth_from_file() {
    let file = format!("# mine\n\n  {}  \nnot a key\n", KEY);
    let server = Server::builder()
        .authorized_keys("authorized_keys")
        .build(&surroundings(vec![Ok(file)], None))
        .unwrap();
    assert!(accepts(&server, "u", key(KEY)));
    assert!(!accepts(&server, "u", key(OTHER)));
    assert_eq!(server.gate.auth.authorized_keys.len(), 1);
}

#[test]
fn strict_user_accepts_only_the_launching_user() {
    let server = Server::builder()
        .require_current_user(true)
        .build(&surroundings(vec![], Some("me")))
        .unwrap();
    assert!(!accepts(&server, "not-the-owner", AuthMethod::Anonymous));
    assert!(accepts(&server, "me", AuthMethod::Anonymous));
}

#[test]
fn allow_user_matches_exact_username_including_spaces() {
    let server = Server::builder()
        .allow_user("John Doe")
        .build(&surroundings(vec![], None))
        .unwrap();
    assert!(!accepts(&server, "John", AuthMethod::Anonymous));
    assert!(!accepts(&server, "john doe", AuthMethod::Anonymous));
    assert!(!accepts(&server, "Jane", AuthMethod::Anonymous));
    assert!(accepts(&server, "John Doe", AuthMethod::Anonymous));
}

#[test]
fn allow_user_accepts_any_of_several() {
    let server = Server::builder()
        .allow_user("alice")
        .allow_user("bob")
        .build(&surroundings(vec![], None))
        .unwrap();
    assert!(!accepts(&server, "carol", AuthMethod::Anonymous));
    assert!(accepts(&server, "bob", AuthMethod::Anonymous));
}

#[test]
fn any_one_method_is_enough() {
    let server = Server::builder()
        .password("p")
        .pubkey(KEY)
        .build(&surroundings(vec![], None))
        .unwrap();
    assert!(accepts(&server, "u", password("p")));
    assert!(accepts(&server, "u", key(KEY)));
    assert!(!accepts(&server, "u", AuthMethod::Anonymous));
    assert_eq!(
        server.methods,
        [MethodKind::PublicKey, MethodKind::Password]
    );
}

#[test]
fn a_hook_decides_in_place_of_the_settings() {
    let mut s = surroundings(vec![], None);
    s.has_authenticator = true;
    let server = Server::builder()
        .password("p")
        .allow_user("u")
        .build(&s)
        .unwrap();
    let all = [
        MethodKind::Anonymous,
        MethodKind::PublicKey,
        MethodKind::Password,
    ];
    assert_eq!(server.methods, all);
    assert!(server.gate.asks_hook("u"));
    assert!(!server.gate.asks_hook("v"));
    assert!(matches!(
        server
            .gate
            .decide("u", &AuthMethod::Anonymous, Some(AuthResult::Accept)),
        Auth::Accept
    ));
    match server
        .gate
        .decide("u", &password("p"), Some(AuthResult::Partial))
    {
        Auth::Reject {
            methods,
            partial_success,
        } => {
            assert!(partial_success);
            assert_eq!(methods, all);
        }
        Auth::Accept => panic!("partial success lets nobody in"),
    }
    match server
        .gate
        .decide("u", &password("p"), Some(AuthResult::Reject))
    {
        Auth::Reject {
            partial_success, ..
        } => assert!(!partial_success),
        Auth::Accept => panic!("a rejection lets nobody in"),
    }
    assert!(matches!(
        server.gate.decide("v", &password("p"), None),
        Auth::Reject { .. }
    ));
    let offered = parse_public_key_line(OTHER).unwrap();
    assert!(matches!(
        server.gate.auth_publickey_offered("u", &offered),
        Auth::Accept
    ));
    assert!(matches!(
        server.gate.auth_publickey_offered("v", &offered),
        Auth::Reject { .. }
    ));
}

#[test]
fn offered_keys_are_checked_early() {
    let server = Server::builder()
        .pubkey(KEY)
        .build(&surroundings(vec![], None))
        .unwrap();
    let good = parse_public_key_line(KEY).unwrap();
    let bad = parse_public_key_line(OTHER).unwrap();
    assert!(matches!(
        server.gate.auth_publickey_offered("u", &good),
        Auth::Accept
    ));
    assert!(matches!(
        server.gate.auth_publickey_offered("u", &bad),
        Auth::Reject { .. }
    ));
}

#[test]
fn keys_are_read_by_their_encoding_and_fingerprint() {
    let k = parse_public_key_line(&format!("  {}  ", KEY)).unwrap();
    assert_eq!(k.data.len(), 51);
    assert_eq!(&k.data[19..23], &[0u8, 1, 2, 3]);
    assert!(k.fingerprint.starts_with("SHA256:"));
    let usual = russh::keys::PublicKey::from_openssh(KEY).unwrap();
    assert_eq!(
        k.fingerprint,
        usual.fingerprint(russh::keys::HashAlg::Sha256).to_string()
    );
    assert_eq!(k.data, usual.to_bytes().unwrap());
    let error = parse_public_key_line("nonsense").err().unwrap();
    assert!(error
        .to_string()
        .starts_with("invalid public key: could not parse inline public key: "));
}

#[test]
fn nothing_secret_is_described() {
    assert_eq!(AuthMethod::Anonymous.describe(), "None");
    assert_eq!(password("hunter2").describe(), "Password(***)");
    let k = PublicKey {
        data: vec![1],
        fingerprint: "SHA256:x".to_string(),
    };
    assert_eq!(
        AuthMethod::PublicKey(k).describe(),
        "PublicKey(SHA256:x)"
    );
    assert!(constant_time_eq(b"abc", b"abc"));
    assert!(!constant_time_eq(b"abc", b"abd"));
    assert!(!constant_time_eq(b"abc", b"ab"));
    assert!(constant_time_eq(b"", b""));
}

#[test]
fn servers_that_cannot_be_made_say_why() {
    let mut s = surroundings(vec![], None);
    s.host_keys = 0;
    assert!(matches!(
        Server::builder().build(&s),
        Err(Error::NoHostKey)
    ));
    let unread = Server::builder()
        .authorized_keys("a")
        .authorized_keys("b")
        .build(&surroundings(
            vec![Ok(String::new()), Err("denied".to_string())],
            None,
        ));
    assert_eq!(
        unread.err().unwrap().to_string(),
        "failed to read authorized_keys b: denied"
    );
    assert!(matches!(
        Server::builder()
            .pubkey("x")
            .build(&surroundings(vec![], None)),
        Err(Error::PublicKey(_))
    ));
    let strict = Server::builder()
        .require_current_user(true)
        .build(&surroundings(vec![], None));
    assert_eq!(
        strict.err().unwrap().to_string(),
        "invalid configuration: strict-user mode is enabled but the current OS user could not be determined (USER/LOGNAME/USERNAME are unset); pass --allow-user instead"
    );
    let mut c = Config::default();
    c.require_current_user = true;
    c.allow_users = vec!["a".to_string()];
    assert_eq!(allowed_users(&c, None).unwrap(), ["a"]);
    assert_eq!(allowed_users(&c, Some("b")).unwrap(), ["a", "b"]);
}

#[test]
fn built_servers_hold_their_settings() {
    let server = Server::builder()
        .bind(sshdt::net::IpAddr::V4(0, 0, 0, 0))
        .port(22)
        .shell("bash -l")
        .sftp_root("/srv")
        .allow_tcp_forwarding(false)
        .login_grace(0)
        .max_startups(7)
        .accept_env(vec!["X".to_string()])
        .banner("hi")
        .host_key("k")
        .host_key_passphrase("pp")
        .build(&surroundings(vec![], None))
        .unwrap();
    assert_eq!(server.bind_addr().to_string(), "0.0.0.0:22");
    assert_eq!(server.resolver.shell, ["bash", "-l"]);
    assert_eq!(server.sftp_root.as_deref(), Some("/srv"));
    assert!(!server.allow_tcp_forwarding);
    assert_eq!(server.login_grace, u64::MAX / 2);
    assert_eq!(server.max_startups, 7);
    assert_eq!(server.accept_env, ["X"]);
    assert_eq!(server.banner.as_deref(), Some("hi"));
    assert_eq!(grace(60), 60);
    let mut c = Config::default();
    assert_eq!(
        host_passphrase(&c, Some("env".to_string())).as_deref(),
        Some("env")
    );
    c.host_key_passphrase = Some("own".to_string());
    assert_eq!(
        host_passphrase(&c, Some("env".to_string())).as_deref(),
        Some("own")
    );
}

#[test]
fn waiting_connections_are_counted() {
    let mut s = Startups::new(0);
    assert!(s.begin());
    assert!(!s.begin());
    s.end();
    assert!(s.begin());
    let mut two = Startups::new(2);
    assert!(two.begin() && two.begin() && !two.begin());
}

#[test]
fn empty_auth_config_still_offers_a_method() {
    let a = AuthConfig {
        anonymous: false,
        password: None,
        authorized_keys: vec![],
    };
    assert_eq!(a.method_set(false), [MethodKind::Anonymous]);
    let g = Gate {
        auth: a,
        allowed_users: vec![],
        has_hook: false,
    };
    assert!(matches!(
        g.decide("u", &AuthMethod::Anonymous, None),
        Auth::Reject { .. }
    ));
}

#[test]
fn settings_make_a_server() {
    let config = sshdt::sshd_config::parse("Port 2022\nLoginGraceTime 0\n").unwrap();
    let server = Server::from_config(config, &surroundings(vec![], None)).unwrap();
    assert_eq!(server.bind_addr().port, 2022);
    assert_eq!(server.login_grace, u64::MAX / 2);
    let mut without_keys = surroundings(vec![], None);
    without_keys.host_keys = 0;
    assert!(matches!(
        Server::from_config(Config::default(), &without_keys),
        Err(Error::NoHostKey)
    ));
}
